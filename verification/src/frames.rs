//! Frame enumeration: turning a directory listing into a strictly
//! ordered frame sequence, keyed by the integer in each file name.

use vstd::prelude::*;

verus! {

broadcast use vstd::seq_lib::group_to_multiset_ensures;

/// Why a run stopped. Every failure aborts the whole run; nothing is
/// retried.
#[derive(Debug)]
pub enum TraceError {
    /// No input file was chosen before starting.
    NoInput,
    /// The external frame extractor exited with this non-zero status.
    Extraction(i32),
    /// This frame file name does not parse as an order key.
    BadFrameName(String),
    /// Fewer than two frame files were found; one frame cannot be
    /// differenced.
    TooFewFrames,
    /// This frame file could not be decoded as a raster image.
    Decode(String),
    /// The receiving end of the progress channel is gone.
    Delivery,
}

/// A frame file: its name and the numeric order key parsed from the
/// name's base (extension stripped).
#[derive(Debug)]
pub struct FrameRef {
    pub name: String,
    pub key: u64,
}

/// A decimal digit.
pub open spec fn is_digit(c: char) -> bool {
    '0' as u32 <= c as u32 <= '9' as u32
}

/// The value of one decimal digit.
pub open spec fn digit_val(c: char) -> int {
    c as u32 - '0' as u32
}

/// Every character is a decimal digit.
pub open spec fn all_digits(s: Seq<char>) -> bool {
    forall|i: int| 0 <= i < s.len() ==> is_digit(#[trigger] s[i])
}

/// The number the decimal digit string denotes, most significant digit
/// first.
pub open spec fn digits_val(s: Seq<char>) -> int
    decreases s.len(),
{
    if s.len() == 0 {
        0
    } else {
        digits_val(s.drop_last()) * 10 + digit_val(s.last())
    }
}

/// A string parses as an order key: non-empty, all digits, and its
/// value fits the key's width.
pub open spec fn parses_as_key(s: Seq<char>) -> bool {
    s.len() > 0 && all_digits(s) && digits_val(s) <= u64::MAX
}

/// Index of the last `'.'` in the string, `-1` when there is none.
pub open spec fn last_dot(s: Seq<char>) -> int
    decreases s.len(),
{
    if s.len() == 0 {
        -1
    } else if s[s.len() - 1] == '.' {
        s.len() - 1
    } else {
        last_dot(s.drop_last())
    }
}

/// Where the base name ends: just before the last `'.'`, unless that
/// dot leads the name or there is none, in which case the whole name is
/// the base.
pub open spec fn stem_end(s: Seq<char>) -> int {
    if last_dot(s) <= 0 {
        s.len() as int
    } else {
        last_dot(s)
    }
}

/// The base of a file name, its extension stripped.
pub open spec fn stem(s: Seq<char>) -> Seq<char> {
    s.subrange(0, stem_end(s))
}

/// The order key a file name denotes.
pub open spec fn key_of(name: Seq<char>) -> int {
    digits_val(stem(name))
}

/// The file name carries an order key.
pub open spec fn name_parses(name: Seq<char>) -> bool {
    parses_as_key(stem(name))
}

/// Order keys never decrease along the sequence.
pub open spec fn sorted_by_key(s: Seq<FrameRef>) -> bool {
    forall|i: int, j: int| 0 <= i < j < s.len() ==> s[i].key <= s[j].key
}

/// Each name paired with the key its stem denotes.
pub open spec fn with_keys(ns: Seq<String>) -> Seq<FrameRef> {
    ns.map_values(|n: String| FrameRef { name: n, key: key_of(n@) as u64 })
}

proof fn lemma_last_dot_bound(s: Seq<char>)
    ensures
        -1 <= last_dot(s) < s.len(),
    decreases s.len(),
{
    if s.len() > 0 && s[s.len() - 1] != '.' {
        lemma_last_dot_bound(s.drop_last());
    }
}

proof fn lemma_digits_val_take_succ(s: Seq<char>, i: int)
    requires
        0 <= i < s.len(),
    ensures
        digits_val(s.take(i + 1)) == digits_val(s.take(i)) * 10 + digit_val(s[i]),
{
    assert(s.take(i + 1).drop_last() =~= s.take(i));
    assert(s.take(i + 1).last() == s[i]);
}

proof fn lemma_digits_val_nonneg(s: Seq<char>)
    requires
        all_digits(s),
    ensures
        digits_val(s) >= 0,
    decreases s.len(),
{
    if s.len() > 0 {
        assert(all_digits(s.drop_last())) by {
            assert(forall|i: int|
                0 <= i < s.len() - 1 ==> #[trigger] s.drop_last()[i] == s[i]);
        }
        lemma_digits_val_nonneg(s.drop_last());
        assert(is_digit(s.last()));
    }
}

/// The value of a digit string is at least the value of any of its
/// prefixes: appending digits can only grow the number.
proof fn lemma_digits_val_take_le(s: Seq<char>, i: int)
    requires
        all_digits(s),
        0 <= i <= s.len(),
    ensures
        digits_val(s.take(i)) <= digits_val(s),
    decreases s.len(),
{
    if i == s.len() {
        assert(s.take(i) =~= s);
    } else {
        let d = s.drop_last();
        assert(all_digits(d)) by {
            assert(forall|k: int| 0 <= k < s.len() - 1 ==> #[trigger] d[k] == s[k]);
        }
        lemma_digits_val_take_le(d, i);
        assert(d.take(i) =~= s.take(i));
        lemma_digits_val_nonneg(d);
        assert(is_digit(s.last()));
        assert(digits_val(s) == digits_val(d) * 10 + digit_val(s.last()));
        assert(digits_val(d) * 10 >= digits_val(d));
    }
}

proof fn lemma_mul10_no_overflow(k: int, d: int, m: int)
    requires
        0 <= d <= 9,
        m >= 10,
        0 <= k,
        k <= m / 10,
        k == m / 10 ==> d <= m % 10,
    ensures
        k * 10 + d <= m,
{
    vstd::arithmetic::div_mod::lemma_fundamental_div_mod(m, 10);
    vstd::arithmetic::div_mod::lemma_mod_bound(m, 10);
}

proof fn lemma_mul10_overflow(k: int, d: int, m: int)
    requires
        0 <= d <= 9,
        m >= 10,
        k > m / 10 || (k == m / 10 && d > m % 10),
    ensures
        k * 10 + d > m,
{
    vstd::arithmetic::div_mod::lemma_fundamental_div_mod(m, 10);
    vstd::arithmetic::div_mod::lemma_mod_bound(m, 10);
}

/// Where the base name of `name` ends, as `stem_end` says.
fn find_stem_end(name: &str) -> (e: usize)
    ensures
        e as int == stem_end(name@),
        e <= name@.len(),
{
    let len = name.unicode_len();
    let mut i: usize = len;
    proof {
        assert(name@.take(len as int) =~= name@);
        lemma_last_dot_bound(name@);
    }
    while i > 0
        invariant
            i <= len,
            len == name@.len(),
            last_dot(name@) == last_dot(name@.take(i as int)),
            -1 <= last_dot(name@) < len,
        decreases i,
    {
        let c = name.get_char(i - 1);
        if c == '.' {
            proof {
                assert(name@.take(i as int)[i - 1] == '.');
                assert(last_dot(name@.take(i as int)) == i - 1);
            }
            if i - 1 > 0 {
                return i - 1;
            } else {
                return len;
            }
        }
        proof {
            assert(name@.take(i as int)[i - 1] != '.');
            assert(name@.take(i as int).drop_last() =~= name@.take(i - 1));
        }
        i = i - 1;
    }
    proof {
        assert(name@.take(0) =~= Seq::<char>::empty());
        assert(last_dot(name@) == -1);
    }
    len
}

/// Parses the order key out of a frame file name: the base name
/// (extension stripped) must be a non-empty string of decimal digits
/// whose value fits in 64 bits; otherwise there is no key.
pub fn frame_key(name: &str) -> (r: Option<u64>)
    ensures
        match r {
            Some(k) => name_parses(name@) && k as int == key_of(name@),
            None => !name_parses(name@),
        },
{
    let end = find_stem_end(name);
    let ghost st = stem(name@);
    proof {
        assert(st.len() == end);
        assert(forall|k: int| 0 <= k < end ==> #[trigger] st[k] == name@[k]);
    }
    if end == 0 {
        return None;
    }
    let zero = '0' as u32;
    let nine = '9' as u32;
    let mut j: usize = 0;
    while j < end
        invariant
            j <= end,
            st == stem(name@),
            end == st.len(),
            end <= name@.len(),
            forall|k: int| 0 <= k < end ==> #[trigger] st[k] == name@[k],
            forall|k: int| 0 <= k < j ==> is_digit(#[trigger] st[k]),
            zero == '0' as u32,
            nine == '9' as u32,
        decreases end - j,
    {
        let c = name.get_char(j);
        let cv = c as u32;
        if cv < zero || cv > nine {
            proof {
                assert(!is_digit(st[j as int]));
            }
            return None;
        }
        j = j + 1;
    }
    proof {
        assert(all_digits(st));
        lemma_digits_val_nonneg(st);
    }
    let top = u64::MAX / 10;
    let rem = u64::MAX % 10;
    let mut acc: u64 = 0;
    let mut j: usize = 0;
    proof {
        assert(st.take(0) =~= Seq::<char>::empty());
    }
    while j < end
        invariant
            j <= end,
            st == stem(name@),
            end == st.len(),
            end <= name@.len(),
            all_digits(st),
            forall|k: int| 0 <= k < end ==> #[trigger] st[k] == name@[k],
            acc as int == digits_val(st.take(j as int)),
            zero == '0' as u32,
            top == u64::MAX / 10,
            rem == u64::MAX % 10,
        decreases end - j,
    {
        let c = name.get_char(j);
        proof {
            assert(st[j as int] == name@[j as int]);
            assert(is_digit(st[j as int]));
        }
        let d64: u64 = (c as u32 - zero) as u64;
        proof {
            assert(d64 as int == digit_val(st[j as int]));
        }
        if acc > top || (acc == top && d64 > rem) {
            proof {
                lemma_mul10_overflow(acc as int, d64 as int, u64::MAX as int);
                lemma_digits_val_take_succ(st, j as int);
                lemma_digits_val_take_le(st, j + 1);
                assert(digits_val(st) > u64::MAX);
            }
            return None;
        }
        proof {
            lemma_mul10_no_overflow(acc as int, d64 as int, u64::MAX as int);
            lemma_digits_val_take_succ(st, j as int);
        }
        acc = acc * 10 + d64;
        j = j + 1;
    }
    proof {
        assert(st.take(end as int) =~= st);
    }
    Some(acc)
}

/// Turns a directory listing into the frame sequence: every name must
/// parse to an order key (a malformed entry fails the whole run), at
/// least two frames must be present, and the result is sorted ascending
/// by key whatever order the listing came in.
pub fn enumerate_frames(names: Vec<String>) -> (r: Result<Vec<FrameRef>, TraceError>)
    ensures
        match r {
            Ok(refs) => {
                &&& forall|i: int| 0 <= i < names@.len() ==> name_parses((#[trigger] names@[i])@)
                &&& names@.len() >= 2
                &&& refs@.len() == names@.len()
                &&& sorted_by_key(refs@)
                &&& forall|i: int|
                    0 <= i < refs@.len() ==> (#[trigger] refs@[i]).key as int == key_of(
                        refs@[i].name@,
                    ) && name_parses(refs@[i].name@)
                &&& refs@.to_multiset() == with_keys(names@).to_multiset()
            },
            Err(e) => match e {
                TraceError::BadFrameName(n) => exists|i: int|
                    0 <= i < names@.len() && !name_parses((#[trigger] names@[i])@) && n@
                        == names@[i]@ && (forall|j: int|
                        0 <= j < i ==> name_parses((#[trigger] names@[j])@)),
                TraceError::TooFewFrames => names@.len() < 2 && forall|i: int|
                    0 <= i < names@.len() ==> name_parses((#[trigger] names@[i])@),
                _ => false,
            },
        },
{
    let ghost orig = names@;
    let mut rest = names;
    let mut refs: Vec<FrameRef> = Vec::new();
    proof {
        assert(orig.skip(0) =~= orig);
        assert(with_keys(orig.take(0)) =~= refs@);
    }
    while rest.len() > 0
        invariant
            orig == names@,
            refs@.len() + rest@.len() == orig.len(),
            rest@ == orig.skip(refs@.len() as int),
            refs@ == with_keys(orig.take(refs@.len() as int)),
            forall|k: int| 0 <= k < refs@.len() ==> name_parses((#[trigger] orig[k])@),
        decreases rest@.len(),
    {
        let ghost c = refs@.len() as int;
        let n = rest.remove(0);
        proof {
            assert(n == orig[c]);
            assert(rest@ =~= orig.skip(c + 1));
        }
        match frame_key(n.as_str()) {
            Option::None => {
                return Result::Err(TraceError::BadFrameName(n));
            },
            Option::Some(k) => {
                refs.push(FrameRef { name: n, key: k });
                proof {
                    assert(refs@ =~= with_keys(orig.take(c + 1))) by {
                        assert(orig.take(c + 1)[c] == orig[c]);
                        assert(forall|t: int|
                            0 <= t < c ==> #[trigger] orig.take(c + 1)[t] == orig.take(c)[t]);
                        assert(with_keys(orig.take(c + 1)).len() == c + 1);
                    }
                }
            },
        }
    }
    proof {
        assert(orig.take(orig.len() as int) =~= orig);
        assert(refs@ == with_keys(orig));
    }
    if refs.len() < 2 {
        return Result::Err(TraceError::TooFewFrames);
    }
    let ghost whole = with_keys(orig);
    proof {
        assert forall|k: int|
            0 <= k < refs@.len() implies (#[trigger] refs@[k]).key as int == key_of(
            refs@[k].name@,
        ) && name_parses(refs@[k].name@) by {
            assert(refs@[k] == with_keys(orig)[k]);
            assert(refs@[k].name == orig[k]);
            assert(name_parses(orig[k]@));
            lemma_digits_val_nonneg(stem(orig[k]@));
        }
    }
    // Insertion sort ascending by order key; the multiset of frames is
    // untouched, so the result is a permutation of the keyed listing.
    let mut i: usize = 1;
    while i < refs.len()
        invariant
            1 <= i <= refs@.len(),
            refs@.len() == orig.len(),
            refs@.to_multiset() == whole.to_multiset(),
            forall|p: int, q: int| 0 <= p < q < i ==> refs@[p].key <= refs@[q].key,
            forall|k: int|
                0 <= k < refs@.len() ==> (#[trigger] refs@[k]).key as int == key_of(
                    refs@[k].name@,
                ) && name_parses(refs@[k].name@),
        decreases refs@.len() - i,
    {
        let ghost before = refs@;
        let x = refs.remove(i);
        proof {
            assert(before.to_multiset().count(x) > 0) by {
                assert(before.contains(x));
            }
        }
        let mut j: usize = i;
        while j > 0 && refs[j - 1].key > x.key
            invariant
                j <= i,
                i < before.len(),
                refs@ == before.remove(i as int),
                forall|k: int| j <= k < i ==> (#[trigger] refs@[k]).key > x.key,
            decreases j,
        {
            j = j - 1;
        }
        refs.insert(j, x);
        proof {
            let a = before.remove(i as int);
            assert(refs@ == a.insert(j as int, x));
            assert(refs@.to_multiset() =~= whole.to_multiset()) by {
                assert(a.to_multiset() == before.to_multiset().remove(x));
                assert(refs@.to_multiset() == a.to_multiset().insert(x));
                assert forall|y: FrameRef|
                    refs@.to_multiset().count(y) == before.to_multiset().count(y) by {
                    broadcast use vstd::multiset::group_multiset_axioms;

                }
            }
            assert forall|p: int, q: int|
                0 <= p < q < i + 1 implies refs@[p].key <= refs@[q].key by {
                assert(forall|k: int| 0 <= k < j ==> refs@[k] == before[k]);
                assert(refs@[j as int] == x);
                assert(forall|k: int| j < k <= i ==> refs@[k] == before[k - 1]);
                if j > 0 {
                    assert(before[j - 1].key <= x.key);
                }
            }
            assert(forall|k: int|
                0 <= k < refs@.len() ==> (#[trigger] refs@[k]).key as int == key_of(
                    refs@[k].name@,
                ) && name_parses(refs@[k].name@)) by {
                assert(forall|k: int| 0 <= k < j ==> refs@[k] == before[k]);
                assert(refs@[j as int] == x && x == before[i as int]);
                assert(forall|k: int| j < k <= i ==> refs@[k] == before[k - 1]);
                assert(forall|k: int| i < k < refs@.len() ==> refs@[k] == before[k]);
            }
        }
        i = i + 1;
    }
    Result::Ok(refs)
}

} // verus!
