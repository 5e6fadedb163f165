//! The sequence allocator: derives the next receipt number for a date
//! stamp from the names of previously written receipt files.
//!
//! A name contributes a sequence number when it starts with the date
//! stamp, ends in `.pdf`, and the part of its stem after the last `-`
//! parses as an unsigned 32-bit integer. Malformed or non-matching
//! names are skipped silently. The allocator proposes one more than
//! the largest number seen, or `1` when none is found.

use vstd::prelude::*;

verus! {

/// A decimal digit character.
pub open spec fn spec_is_digit(c: char) -> bool {
    48 <= c as int && c as int <= 57
}

/// Numeric value of a decimal digit character.
pub open spec fn spec_digit_value(c: char) -> int {
    c as int - 48
}

/// Every character of `s` is a decimal digit.
pub open spec fn spec_all_digits(s: Seq<char>) -> bool {
    forall|i: int| 0 <= i < s.len() ==> spec_is_digit(#[trigger] s[i])
}

/// Value of a digit string, most significant digit first.
pub open spec fn spec_digits_value(s: Seq<char>) -> int
    decreases s.len(),
{
    if s.len() == 0 {
        0
    } else {
        spec_digits_value(s.drop_last()) * 10 + spec_digit_value(s.last())
    }
}

/// What `str::parse::<u32>` accepts: an optional leading `'+'`, then
/// one or more decimal digits whose value fits in `u32`.
pub open spec fn spec_parse_u32(s: Seq<char>) -> Option<int> {
    let t = if s.len() > 0 && s[0] == '+' {
        s.skip(1)
    } else {
        s
    };
    if t.len() == 0 || !spec_all_digits(t) || spec_digits_value(t) > u32::MAX as int {
        None
    } else {
        Some(spec_digits_value(t))
    }
}

/// `p` is the first `p.len()` characters of `s`.
pub open spec fn spec_has_prefix(s: Seq<char>, p: Seq<char>) -> bool {
    p.len() <= s.len() && s.subrange(0, p.len() as int) == p
}

/// `p` is the last `p.len()` characters of `s`.
pub open spec fn spec_has_suffix(s: Seq<char>, p: Seq<char>) -> bool {
    p.len() <= s.len() && s.subrange(s.len() - p.len(), s.len() as int) == p
}

/// The `.pdf` file extension.
pub open spec fn spec_pdf_suffix() -> Seq<char> {
    seq!['.', 'p', 'd', 'f']
}

/// The stem of a name: every trailing `.pdf` removed.
pub open spec fn spec_trim_pdf(s: Seq<char>) -> Seq<char>
    decreases s.len(),
{
    if spec_has_suffix(s, spec_pdf_suffix()) {
        spec_trim_pdf(s.subrange(0, s.len() - 4))
    } else {
        s
    }
}

/// Position `i` holds the last `'-'` of `s`.
pub open spec fn spec_is_last_dash(s: Seq<char>, i: int) -> bool {
    0 <= i < s.len() && s[i] == '-' && (forall|j: int| i < j < s.len() ==> (#[trigger] s[j])
        != '-')
}

/// `s` contains a `'-'`.
pub open spec fn spec_has_dash(s: Seq<char>) -> bool {
    exists|i: int| 0 <= i < s.len() && (#[trigger] s[i]) == '-'
}

/// The position of the last `'-'` of `s` (meaningful only when
/// `spec_has_dash(s)` holds).
pub open spec fn spec_last_dash(s: Seq<char>) -> int {
    choose|i: int| spec_is_last_dash(s, i)
}

/// The sequence number contributed by one directory entry for a date
/// stamp, or `None` for names that are skipped.
pub open spec fn spec_entry_value(name: Seq<char>, stamp: Seq<char>) -> Option<int> {
    if spec_has_prefix(name, stamp) && spec_has_suffix(name, spec_pdf_suffix()) {
        let stem = spec_trim_pdf(name);
        if spec_has_dash(stem) {
            spec_parse_u32(stem.subrange(spec_last_dash(stem) + 1, stem.len() as int))
        } else {
            None
        }
    } else {
        None
    }
}

/// The largest sequence number among the entries, or `0` when none
/// contributes one.
pub open spec fn spec_max_entry(names: Seq<Seq<char>>, stamp: Seq<char>) -> int
    decreases names.len(),
{
    if names.len() == 0 {
        0
    } else {
        let rest = spec_max_entry(names.drop_last(), stamp);
        match spec_entry_value(names.last(), stamp) {
            Option::Some(v) => if v > rest {
                v
            } else {
                rest
            },
            Option::None => rest,
        }
    }
}

/// The number the allocator proposes: one more than the largest
/// sequence number found, so `1` over an empty or unrelated listing.
pub open spec fn spec_next_sequence(names: Seq<Seq<char>>, stamp: Seq<char>) -> int {
    spec_max_entry(names, stamp) + 1
}

pub proof fn lemma_digits_value_nonneg(s: Seq<char>)
    requires
        spec_all_digits(s),
    ensures
        spec_digits_value(s) >= 0,
    decreases s.len(),
{
    if s.len() > 0 {
        assert(spec_all_digits(s.drop_last()));
        lemma_digits_value_nonneg(s.drop_last());
    }
}

pub proof fn lemma_digits_prefix_le(s: Seq<char>, i: int)
    requires
        spec_all_digits(s),
        0 <= i <= s.len(),
    ensures
        spec_digits_value(s.subrange(0, i)) <= spec_digits_value(s),
    decreases s.len() - i,
{
    if i == s.len() {
        assert(s.subrange(0, i) =~= s);
    } else {
        let shorter = s.subrange(0, i);
        let longer = s.subrange(0, i + 1);
        assert(longer.drop_last() =~= shorter);
        assert(spec_all_digits(shorter));
        lemma_digits_value_nonneg(shorter);
        assert(spec_digits_value(longer) == spec_digits_value(shorter) * 10 + spec_digit_value(
            s[i],
        ));
        lemma_digits_prefix_le(s, i + 1);
    }
}

pub proof fn lemma_last_dash_unique(s: Seq<char>, i: int, j: int)
    requires
        spec_is_last_dash(s, i),
        spec_is_last_dash(s, j),
    ensures
        i == j,
{
    if i < j {
        assert(s[j] != '-');
    } else if j < i {
        assert(s[i] != '-');
    }
}

/// An empty or unreadable directory, handed over as an empty listing,
/// yields the first sequence number.
pub proof fn lemma_empty_listing_starts_at_one(stamp: Seq<char>)
    ensures
        spec_next_sequence(Seq::<Seq<char>>::empty(), stamp) == 1,
{
}

/// A name that contributes no sequence number never changes what the
/// allocator proposes: malformed entries are ignored.
pub proof fn lemma_ignored_name_preserves_next(
    names: Seq<Seq<char>>,
    stamp: Seq<char>,
    name: Seq<char>,
)
    requires
        spec_entry_value(name, stamp) is None,
    ensures
        spec_next_sequence(names.push(name), stamp) == spec_next_sequence(names, stamp),
{
    assert(names.push(name).drop_last() =~= names);
}

pub proof fn lemma_max_entry_ge(names: Seq<Seq<char>>, stamp: Seq<char>, i: int, v: int)
    requires
        0 <= i < names.len(),
        spec_entry_value(names[i], stamp) == Some(v),
    ensures
        spec_max_entry(names, stamp) >= v,
    decreases names.len(),
{
    if i == names.len() - 1 {
        assert(names.last() == names[i]);
    } else {
        assert(names.drop_last()[i] == names[i]);
        lemma_max_entry_ge(names.drop_last(), stamp, i, v);
    }
}

/// The allocated number strictly exceeds every sequence number already
/// present for the date stamp, so a fresh name never collides with a
/// well-formed existing one.
pub proof fn lemma_next_exceeds_existing(names: Seq<Seq<char>>, stamp: Seq<char>, i: int, v: int)
    requires
        0 <= i < names.len(),
        spec_entry_value(names[i], stamp) == Some(v),
    ensures
        spec_next_sequence(names, stamp) > v,
{
    lemma_max_entry_ge(names, stamp, i, v);
}

pub proof fn lemma_entry_value_bounds(name: Seq<char>, stamp: Seq<char>)
    ensures
        match spec_entry_value(name, stamp) {
            Option::Some(v) => 0 <= v <= u32::MAX as int,
            Option::None => true,
        },
{
    if spec_entry_value(name, stamp) is Some {
        let stem = spec_trim_pdf(name);
        let tail = stem.subrange(spec_last_dash(stem) + 1, stem.len() as int);
        let t = if tail.len() > 0 && tail[0] == '+' {
            tail.skip(1)
        } else {
            tail
        };
        lemma_digits_value_nonneg(t);
    }
}

pub proof fn lemma_max_entry_bounds(names: Seq<Seq<char>>, stamp: Seq<char>)
    ensures
        0 <= spec_max_entry(names, stamp) <= u32::MAX as int,
    decreases names.len(),
{
    if names.len() > 0 {
        lemma_max_entry_bounds(names.drop_last(), stamp);
        lemma_entry_value_bounds(names.last(), stamp);
    }
}

/// Parses a string the way `str::parse::<u32>` does.
pub fn parse_u32(s: &str) -> (r: Option<u32>)
    ensures
        match r {
            Option::Some(v) => spec_parse_u32(s@) == Some(v as int),
            Option::None => spec_parse_u32(s@) is None,
        },
{
    let n = s.unicode_len();
    let offset: usize = if n > 0 && s.get_char(0) == '+' {
        1
    } else {
        0
    };
    proof {
        assert((offset == 1) <==> (s@.len() > 0 && s@[0] == '+'));
    }
    let ghost t = if offset == 1 {
        s@.skip(1)
    } else {
        s@
    };
    assert(t.len() == n - offset);
    assert(forall|k: int| 0 <= k < t.len() ==> t[k] == s@[k + offset]);
    if offset >= n {
        return None;
    }
    let mut acc: u64 = 0;
    let mut j: usize = offset;
    while j < n
        invariant
            offset <= j <= n,
            n == s@.len(),
            offset == 0 || offset == 1,
            (offset == 1) <==> (s@.len() > 0 && s@[0] == '+'),
            t == (if offset == 1 {
                s@.skip(1)
            } else {
                s@
            }),
            t.len() == n - offset,
            forall|k: int| 0 <= k < t.len() ==> t[k] == s@[k + offset],
            spec_all_digits(t.subrange(0, j - offset)),
            acc == spec_digits_value(t.subrange(0, j - offset)),
            acc <= u32::MAX as u64,
        decreases n - j,
    {
        let c = s.get_char(j);
        let u = c as u32;
        if u < 48 || u > 57 {
            proof {
                assert(!spec_is_digit(t[j - offset]));
                assert(!spec_all_digits(t));
            }
            return None;
        }
        let d = (u - 48) as u64;
        let new_acc = acc * 10 + d;
        proof {
            let prefix = t.subrange(0, j + 1 - offset);
            assert(prefix.drop_last() =~= t.subrange(0, j - offset));
            assert(spec_digits_value(prefix) == acc * 10 + d);
            assert(spec_all_digits(prefix));
        }
        if new_acc > 0xFFFF_FFFFu64 {
            proof {
                if spec_all_digits(t) {
                    lemma_digits_prefix_le(t, j + 1 - offset);
                    assert(spec_digits_value(t) > u32::MAX as int);
                }
            }
            return None;
        }
        acc = new_acc;
        j = j + 1;
    }
    proof {
        assert(t.subrange(0, n - offset) =~= t);
    }
    Some(acc as u32)
}

/// True when `p` is a prefix of `s`, character for character.
pub fn has_prefix(s: &str, p: &str) -> (r: bool)
    ensures
        r == spec_has_prefix(s@, p@),
{
    let sn = s.unicode_len();
    let pn = p.unicode_len();
    if pn > sn {
        return false;
    }
    let mut i: usize = 0;
    while i < pn
        invariant
            i <= pn <= sn,
            sn == s@.len(),
            pn == p@.len(),
            forall|k: int| 0 <= k < i ==> s@[k] == p@[k],
        decreases pn - i,
    {
        if s.get_char(i) != p.get_char(i) {
            proof {
                assert(s@.subrange(0, pn as int)[i as int] != p@[i as int]);
            }
            return false;
        }
        i = i + 1;
    }
    proof {
        assert(s@.subrange(0, pn as int) =~= p@);
    }
    true
}

/// True when `p` is a suffix of `s`, character for character.
pub fn has_suffix(s: &str, p: &str) -> (r: bool)
    ensures
        r == spec_has_suffix(s@, p@),
{
    let sn = s.unicode_len();
    let pn = p.unicode_len();
    if pn > sn {
        return false;
    }
    let base = sn - pn;
    let mut i: usize = 0;
    while i < pn
        invariant
            i <= pn <= sn,
            sn == s@.len(),
            pn == p@.len(),
            base == sn - pn,
            forall|k: int| 0 <= k < i ==> s@[base + k] == p@[k],
        decreases pn - i,
    {
        if s.get_char(base + i) != p.get_char(i) {
            proof {
                assert(s@.subrange(base as int, sn as int)[i as int] != p@[i as int]);
            }
            return false;
        }
        i = i + 1;
    }
    proof {
        assert(s@.subrange(base as int, sn as int) =~= p@);
    }
    true
}

/// Removes every trailing `.pdf` from a name.
pub fn trim_pdf(s: &str) -> (r: String)
    ensures
        r@ == spec_trim_pdf(s@),
{
    let mut t = String::from_str(s);
    proof {
        reveal_strlit(".pdf");
        assert(".pdf"@ =~= spec_pdf_suffix());
    }
    while has_suffix(t.as_str(), ".pdf")
        invariant
            spec_trim_pdf(t@) == spec_trim_pdf(s@),
            ".pdf"@ == spec_pdf_suffix(),
        decreases t@.len(),
    {
        let n = t.as_str().unicode_len();
        let head = String::from_str(t.as_str().substring_char(0, n - 4));
        t = head;
    }
    t
}

/// Finds the position of the last `'-'` of `s`, if any.
pub fn find_last_dash(s: &str) -> (r: Option<usize>)
    ensures
        match r {
            Option::Some(i) => spec_is_last_dash(s@, i as int),
            Option::None => !spec_has_dash(s@),
        },
{
    let n = s.unicode_len();
    let mut k: usize = n;
    while k > 0
        invariant
            k <= n,
            n == s@.len(),
            forall|j: int| k <= j < n ==> (#[trigger] s@[j]) != '-',
        decreases k,
    {
        k = k - 1;
        if s.get_char(k) == '-' {
            return Some(k);
        }
    }
    None
}

/// The sequence number one directory entry contributes for a date
/// stamp: names that do not match the stamp or do not parse are
/// skipped with `None`.
pub fn entry_value(name: &str, stamp: &str) -> (r: Option<u32>)
    ensures
        match r {
            Option::Some(v) => spec_entry_value(name@, stamp@) == Some(v as int),
            Option::None => spec_entry_value(name@, stamp@) is None,
        },
{
    if !has_prefix(name, stamp) {
        return None;
    }
    proof {
        reveal_strlit(".pdf");
        assert(".pdf"@ =~= spec_pdf_suffix());
    }
    if !has_suffix(name, ".pdf") {
        return None;
    }
    let stem = trim_pdf(name);
    let sn = stem.as_str().unicode_len();
    match find_last_dash(stem.as_str()) {
        Option::None => None,
        Option::Some(i) => {
            proof {
                let ghost chosen = spec_last_dash(stem@);
                assert(spec_is_last_dash(stem@, i as int));
                assert(spec_has_dash(stem@));
                assert(spec_is_last_dash(stem@, chosen));
                lemma_last_dash_unique(stem@, i as int, chosen);
            }
            let tail = stem.as_str().substring_char(i + 1, sn);
            parse_u32(tail)
        },
    }
}

/// Scans a directory listing and proposes the next sequence number for
/// a date stamp: one more than the largest number any entry
/// contributes, so `1` when no entry matches.
pub fn next_sequence(names: &Vec<String>, stamp: &str) -> (r: u64)
    ensures
        r == spec_next_sequence(names.deep_view(), stamp@),
        1 <= r <= 0x1_0000_0000u64,
{
    let mut max: u64 = 0;
    let mut idx: usize = 0;
    while idx < names.len()
        invariant
            idx <= names@.len(),
            names.deep_view().len() == names@.len(),
            forall|q: int| 0 <= q < names@.len() ==> names.deep_view()[q] == names@[q]@,
            max == spec_max_entry(names.deep_view().subrange(0, idx as int), stamp@),
            max <= u32::MAX as u64,
        decreases names@.len() - idx,
    {
        let ghost prefix = names.deep_view().subrange(0, idx as int);
        let ghost extended = names.deep_view().subrange(0, idx as int + 1);
        match entry_value(names[idx].as_str(), stamp) {
            Option::Some(v) => {
                let v64 = v as u64;
                if v64 > max {
                    max = v64;
                }
            },
            Option::None => {},
        }
        proof {
            assert(extended.drop_last() =~= prefix);
            assert(extended.last() == names@[idx as int]@);
        }
        idx = idx + 1;
    }
    proof {
        assert(names.deep_view().subrange(0, names@.len() as int) =~= names.deep_view());
        lemma_max_entry_bounds(names.deep_view(), stamp@);
    }
    max + 1
}

} // verus!
