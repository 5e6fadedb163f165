//! The session-privilege record: a small external state blob holding
//! the administrative flag of the most recent login. It is written on
//! every login and read back when a day-closure request arrives with
//! no password; storage itself is the caller's concern.

use vstd::prelude::*;

verus! {

/// The record's content for a privilege flag: `admin=1` or `admin=0`.
pub open spec fn spec_admin_record(is_admin: bool) -> Seq<char> {
    if is_admin {
        "admin=1"@
    } else {
        "admin=0"@
    }
}

/// An ASCII whitespace character, as tolerated around the record.
pub open spec fn spec_is_ws(c: char) -> bool {
    c == ' ' || c == '\t' || c == '\n' || c == '\r'
}

/// `s` with leading whitespace removed.
pub open spec fn spec_trim_start(s: Seq<char>) -> Seq<char>
    decreases s.len(),
{
    if s.len() > 0 && spec_is_ws(s[0]) {
        spec_trim_start(s.skip(1))
    } else {
        s
    }
}

/// `s` with trailing whitespace removed.
pub open spec fn spec_trim_end(s: Seq<char>) -> Seq<char>
    decreases s.len(),
{
    if s.len() > 0 && spec_is_ws(s.last()) {
        spec_trim_end(s.drop_last())
    } else {
        s
    }
}

/// `s` with whitespace removed from both ends.
pub open spec fn spec_trim(s: Seq<char>) -> Seq<char> {
    spec_trim_end(spec_trim_start(s))
}

/// Position `i` holds the only `'='` of `s`.
pub open spec fn spec_is_only_eq(s: Seq<char>, i: int) -> bool {
    0 <= i < s.len() && s[i] == '=' && (forall|j: int|
        0 <= j < s.len() && j != i ==> (#[trigger] s[j]) != '=')
}

/// `s` contains exactly one `'='`.
pub open spec fn spec_single_eq(s: Seq<char>) -> bool {
    exists|i: int| spec_is_only_eq(s, i)
}

/// The position of the only `'='` of `s` (meaningful only when
/// `spec_single_eq(s)` holds).
pub open spec fn spec_eq_index(s: Seq<char>) -> int {
    choose|i: int| spec_is_only_eq(s, i)
}

/// How a stored record reads back: after trimming, the content must
/// split on exactly one `'='`, and the trimmed value part must be `1`
/// or `0`; anything else leaves the privilege unknown.
pub open spec fn spec_parse_admin_record(content: Seq<char>) -> Option<bool> {
    let t = spec_trim(content);
    if spec_single_eq(t) {
        let v = spec_trim(t.subrange(spec_eq_index(t) + 1, t.len() as int));
        if v == seq!['1'] {
            Some(true)
        } else if v == seq!['0'] {
            Some(false)
        } else {
            None
        }
    } else {
        None
    }
}

/// Writing then reading a privilege flag gives that flag back: the
/// record format round-trips.
pub proof fn lemma_admin_record_round_trip(is_admin: bool)
    ensures
        spec_parse_admin_record(spec_admin_record(is_admin)) == Some(is_admin),
{
    reveal_strlit("admin=1");
    reveal_strlit("admin=0");
    let t = spec_admin_record(is_admin);
    assert(spec_trim_start(t) == t);
    assert(spec_trim_end(t) == t);
    assert(spec_is_only_eq(t, 5));
    let i = spec_eq_index(t);
    assert(spec_is_only_eq(t, i));
    assert(i == 5) by {
        if i != 5 {
            assert(t[5] != '=');
        }
    }
    let v = t.subrange(6, 7);
    assert(spec_trim_start(v) == v);
    assert(spec_trim_end(v) == v);
    if is_admin {
        assert(v =~= seq!['1']);
    } else {
        assert(v =~= seq!['0']);
        assert(v != seq!['1']);
    }
}

/// Renders the record that stores a privilege flag.
pub fn render_admin_record(is_admin: bool) -> (r: String)
    ensures
        r@ == spec_admin_record(is_admin),
{
    if is_admin {
        String::from_str("admin=1")
    } else {
        String::from_str("admin=0")
    }
}

/// Whether the character at position `i` is ASCII whitespace.
fn is_ws_at(s: &str, i: usize) -> (b: bool)
    requires
        i < s@.len(),
    ensures
        b == spec_is_ws(s@[i as int]),
{
    let c = s.get_char(i);
    c == ' ' || c == '\t' || c == '\n' || c == '\r'
}

/// Removes leading ASCII whitespace.
fn trim_start(s: &str) -> (r: String)
    ensures
        r@ == spec_trim_start(s@),
{
    let n = s.unicode_len();
    let mut i: usize = 0;
    proof {
        assert(s@.skip(0) =~= s@);
    }
    while i < n && is_ws_at(s, i)
        invariant
            i <= n,
            n == s@.len(),
            spec_trim_start(s@) == spec_trim_start(s@.skip(i as int)),
        decreases n - i,
    {
        proof {
            assert(s@.skip(i as int)[0] == s@[i as int]);
            assert(s@.skip(i as int).skip(1) =~= s@.skip(i as int + 1));
        }
        i = i + 1;
    }
    let r = String::from_str(s.substring_char(i, n));
    proof {
        assert(s@.subrange(i as int, n as int) =~= s@.skip(i as int));
        if i < n {
            assert(s@.skip(i as int)[0] == s@[i as int]);
        }
    }
    r
}

/// Removes trailing ASCII whitespace.
fn trim_end(s: &str) -> (r: String)
    ensures
        r@ == spec_trim_end(s@),
{
    let n = s.unicode_len();
    let mut e: usize = n;
    proof {
        assert(s@.subrange(0, n as int) =~= s@);
    }
    while e > 0 && is_ws_at(s, e - 1)
        invariant
            e <= n,
            n == s@.len(),
            spec_trim_end(s@) == spec_trim_end(s@.subrange(0, e as int)),
        decreases e,
    {
        proof {
            assert(s@.subrange(0, e as int).last() == s@[e as int - 1]);
            assert(s@.subrange(0, e as int).drop_last() =~= s@.subrange(0, e as int - 1));
        }
        e = e - 1;
    }
    let r = String::from_str(s.substring_char(0, e));
    proof {
        if e > 0 {
            assert(s@.subrange(0, e as int).last() == s@[e as int - 1]);
        }
    }
    r
}

/// Removes ASCII whitespace from both ends.
fn trim(s: &str) -> (r: String)
    ensures
        r@ == spec_trim(s@),
{
    let t = trim_start(s);
    trim_end(t.as_str())
}

/// Finds the position of the only `'='` of `s`: `None` when `s` holds
/// no `'='` or more than one.
fn find_single_eq(s: &str) -> (r: Option<usize>)
    ensures
        match r {
            Option::Some(i) => spec_is_only_eq(s@, i as int),
            Option::None => !spec_single_eq(s@),
        },
{
    let n = s.unicode_len();
    let mut first: Option<usize> = None;
    let mut idx: usize = 0;
    while idx < n
        invariant
            idx <= n,
            n == s@.len(),
            match first {
                Option::Some(f) => f < idx && s@[f as int] == '=' && (forall|j: int|
                    0 <= j < idx && j != f ==> (#[trigger] s@[j]) != '='),
                Option::None => forall|j: int| 0 <= j < idx ==> (#[trigger] s@[j]) != '=',
            },
        decreases n - idx,
    {
        if s.get_char(idx) == '=' {
            match first {
                Option::None => {
                    first = Some(idx);
                },
                Option::Some(f) => {
                    proof {
                        assert forall|i: int| !spec_is_only_eq(s@, i) by {
                            if i == f as int {
                                assert(s@[idx as int] == '=');
                            } else {
                                assert(s@[f as int] == '=');
                            }
                        }
                    }
                    return None;
                },
            }
        }
        idx = idx + 1;
    }
    match first {
        Option::None => {
            proof {
                assert forall|i: int| !spec_is_only_eq(s@, i) by {
                    if 0 <= i < s@.len() {
                        assert(s@[i] != '=');
                    }
                }
            }
            None
        },
        Option::Some(f) => Some(f),
    }
}

/// Reads a stored session-privilege record back: `Some(flag)` when the
/// content is a well-formed record, `None` otherwise.
pub fn parse_admin_record(content: &str) -> (r: Option<bool>)
    ensures
        r == spec_parse_admin_record(content@),
{
    let t = trim(content);
    let tn = t.as_str().unicode_len();
    match find_single_eq(t.as_str()) {
        Option::None => None,
        Option::Some(i) => {
            proof {
                let chosen = spec_eq_index(t@);
                assert(spec_is_only_eq(t@, i as int));
                assert(spec_single_eq(t@));
                assert(spec_is_only_eq(t@, chosen));
                if chosen != i as int {
                    assert(t@[chosen] != '=');
                }
            }
            let tail = t.as_str().substring_char(i + 1, tn);
            let v = trim(tail);
            let vn = v.as_str().unicode_len();
            if vn == 1 {
                let c = v.as_str().get_char(0);
                if c == '1' {
                    proof {
                        assert(v@ =~= seq!['1']);
                    }
                    Some(true)
                } else if c == '0' {
                    proof {
                        assert(v@ =~= seq!['0']);
                        assert(v@ != seq!['1']);
                    }
                    Some(false)
                } else {
                    proof {
                        assert(v@ != seq!['1']);
                        assert(v@ != seq!['0']);
                    }
                    None
                }
            } else {
                proof {
                    assert(v@ != seq!['1']);
                    assert(v@ != seq!['0']);
                }
                None
            }
        },
    }
}

} // verus!
