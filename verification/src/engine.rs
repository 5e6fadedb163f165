//! The receipt issuance engine: validates a request, enforces the
//! authorization gate, allocates the day's next sequence number from
//! the output directory's listing, and renders the printable document.
//! Writing the result to storage is the caller's concern.

use crate::auth;
use crate::auth::AuthError;
use crate::layout;
use crate::layout::{PageGeometry, ReceiptDocument, SaleLine};
use crate::sequence;
use crate::text;
use vstd::prelude::*;

verus! {

/// Why an issuance request was refused.
#[derive(Clone, Copy, PartialEq, Eq, Structural, Debug)]
pub enum IssueError {
    /// The request carried no sale lines.
    EmptyRequest,
    /// The authorization gate refused the day closure.
    Auth(AuthError),
}

/// A receipt issuance request.
pub struct ReceiptRequest {
    /// The sale lines, in the order they are printed. Must be
    /// non-empty.
    pub lines: Vec<SaleLine>,
    /// The grand total shown in the footer.
    pub total_cents: u64,
    /// Whether this is the privileged day-closure receipt.
    pub is_day_closure: bool,
    /// The administrative password accompanying a day closure, if any.
    pub admin_password: Option<String>,
}

/// A successfully issued receipt.
pub struct IssueOutcome {
    /// The file name the document should be written under, unique
    /// among well-formed names of the day.
    pub file_name: String,
    /// The allocated per-day sequence number.
    pub sequence: u64,
    /// The rendered document.
    pub document: ReceiptDocument,
}

/// The title drawn on the receipt.
pub open spec fn spec_title(is_day_closure: bool) -> Seq<char> {
    if is_day_closure {
        "Recibo cierre del dia"@
    } else {
        "Recibo cliente"@
    }
}

/// The receipt file name: date stamp, dash, sequence number in
/// decimal with no leading zeros, and the `.pdf` extension.
pub open spec fn spec_file_name(stamp: Seq<char>, sequence: int) -> Seq<char> {
    stamp + seq!['-'] + text::spec_decimal(sequence) + seq!['.', 'p', 'd', 'f']
}

/// Picks the receipt title for the request kind.
pub fn title_for(is_day_closure: bool) -> (r: &'static str)
    ensures
        r@ == spec_title(is_day_closure),
{
    if is_day_closure {
        "Recibo cierre del dia"
    } else {
        "Recibo cliente"
    }
}

/// Composes the receipt file name for a date stamp and sequence.
pub fn file_name(stamp: &str, sequence: u64) -> (r: String)
    ensures
        r@ == spec_file_name(stamp@, sequence as int),
{
    let mut r = String::from_str(stamp);
    r.append("-");
    let digits = text::decimal_string(sequence);
    r.append(digits.as_str());
    r.append(".pdf");
    proof {
        reveal_strlit("-");
        reveal_strlit(".pdf");
        assert(r@ =~= spec_file_name(stamp@, sequence as int));
    }
    r
}

/// Issues a receipt: rejects an empty request, enforces the
/// authorization gate for day closures, allocates the next sequence
/// number from the directory listing, and renders the document with
/// the standard page layout. Nothing is written: the caller persists
/// the document under the returned file name.
///
/// `existing_names` is the output directory's listing (empty for a
/// missing or unreadable directory), and `password_is_admin` is the
/// credential store's answer for the request's password.
pub fn issue(
    request: &ReceiptRequest,
    session_privilege: bool,
    password_is_admin: bool,
    existing_names: &Vec<String>,
    date_stamp: &str,
    timestamp: &str,
) -> (r: Result<IssueOutcome, IssueError>)
    ensures
        r is Err <==> (request.lines@.len() == 0 || auth::spec_authorize(
            request.is_day_closure,
            session_privilege,
            request.admin_password is Some,
            password_is_admin,
        ) is Err),
        request.lines@.len() == 0 ==> r == Err::<IssueOutcome, IssueError>(IssueError::EmptyRequest),
        request.lines@.len() > 0 && auth::spec_authorize(
            request.is_day_closure,
            session_privilege,
            request.admin_password is Some,
            password_is_admin,
        ) is Err ==> r == Err::<IssueOutcome, IssueError>(
            IssueError::Auth(
                auth::spec_authorize(
                    request.is_day_closure,
                    session_privilege,
                    request.admin_password is Some,
                    password_is_admin,
                )->Err_0,
            ),
        ),
        r is Ok ==> ({
            let out = r->Ok_0;
            &&& out.sequence == sequence::spec_next_sequence(
                existing_names.deep_view(),
                date_stamp@,
            )
            &&& 1 <= out.sequence <= 0x1_0000_0000u64
            &&& out.file_name@ == spec_file_name(date_stamp@, out.sequence as int)
            &&& out.document@ == layout::spec_document(
                PageGeometry::spec_standard(),
                spec_title(request.is_day_closure),
                timestamp@,
                layout::spec_rows_of(request.lines.deep_view()),
                request.total_cents as int,
            )
        }),
{
    if request.lines.len() == 0 {
        return Err(IssueError::EmptyRequest);
    }
    match auth::authorize(
        request.is_day_closure,
        session_privilege,
        request.admin_password.as_ref(),
        password_is_admin,
    ) {
        Result::Err(e) => Err(IssueError::Auth(e)),
        Result::Ok(_) => {
            let seq_number = sequence::next_sequence(existing_names, date_stamp);
            let name = file_name(date_stamp, seq_number);
            let geometry = PageGeometry::standard();
            let title = title_for(request.is_day_closure);
            let document = layout::render(
                &request.lines,
                request.total_cents,
                title,
                timestamp,
                &geometry,
            );
            Ok(IssueOutcome { file_name: name, sequence: seq_number, document })
        },
    }
}

pub proof fn lemma_decimal_chars(n: int)
    requires
        0 <= n,
    ensures
        text::spec_decimal(n).len() >= 1,
        sequence::spec_all_digits(text::spec_decimal(n)),
        sequence::spec_digits_value(text::spec_decimal(n)) == n,
    decreases n,
{
    let s = text::spec_decimal(n);
    if n < 10 {
        assert(s.drop_last() =~= Seq::<char>::empty());
        assert(sequence::spec_digits_value(s.drop_last()) == 0);
        assert(sequence::spec_digit_value(s.last()) == n);
        assert(sequence::spec_digits_value(s) == n);
    } else {
        lemma_decimal_chars(n / 10);
        let prefix = text::spec_decimal(n / 10);
        assert(s.drop_last() =~= prefix);
        assert(sequence::spec_all_digits(s)) by {
            assert(forall|i: int|
                0 <= i < prefix.len() ==> sequence::spec_is_digit(#[trigger] s[i]));
        }
        assert(sequence::spec_digit_value(s.last()) == n % 10);
        assert(sequence::spec_digits_value(s) == sequence::spec_digits_value(prefix) * 10 + (n
            % 10));
        vstd::arithmetic::div_mod::lemma_fundamental_div_mod(n, 10);
        assert(sequence::spec_digits_value(s) == n);
    }
}

/// A name the engine composes reads back as exactly its sequence
/// number: the allocator, scanning a directory that holds
/// `<stamp>-<v>.pdf`, counts it with value `v`.
pub proof fn lemma_file_name_round_trip(stamp: Seq<char>, v: int)
    requires
        0 <= v <= u32::MAX as int,
    ensures
        sequence::spec_entry_value(spec_file_name(stamp, v), stamp) == Some(v),
{
    let digits = text::spec_decimal(v);
    lemma_decimal_chars(v);
    let name = spec_file_name(stamp, v);
    let stem = stamp + seq!['-'] + digits;
    assert(sequence::spec_has_prefix(name, stamp)) by {
        assert(name.subrange(0, stamp.len() as int) =~= stamp);
    }
    assert(sequence::spec_has_suffix(name, sequence::spec_pdf_suffix())) by {
        assert(name.subrange(name.len() - 4, name.len() as int) =~= sequence::spec_pdf_suffix());
    }
    assert(name.subrange(0, name.len() - 4) =~= stem);
    assert(sequence::spec_is_digit(stem.last())) by {
        assert(stem.last() == digits.last());
    }
    assert(!sequence::spec_has_suffix(stem, sequence::spec_pdf_suffix())) by {
        if sequence::spec_has_suffix(stem, sequence::spec_pdf_suffix()) {
            assert(stem.subrange(stem.len() - 4, stem.len() as int)[3] == stem.last());
            assert(stem.last() == 'f');
            assert('f' as int == 102);
        }
    }
    assert(sequence::spec_trim_pdf(stem) == stem);
    assert(sequence::spec_trim_pdf(name) == sequence::spec_trim_pdf(
        name.subrange(0, name.len() - 4),
    ));
    assert(sequence::spec_trim_pdf(name) == stem);
    let di = stamp.len() as int;
    assert(stem[di] == '-');
    assert(forall|j: int| di < j < stem.len() ==> (#[trigger] stem[j]) != '-') by {
        assert(forall|j: int|
            di < j < stem.len() ==> sequence::spec_is_digit(#[trigger] stem[j]));
        assert('-' as int == 45);
    }
    assert(sequence::spec_is_last_dash(stem, di));
    assert(sequence::spec_is_last_dash(stem, sequence::spec_last_dash(stem)));
    sequence::lemma_last_dash_unique(stem, di, sequence::spec_last_dash(stem));
    let tail = stem.subrange(di + 1, stem.len() as int);
    assert(tail =~= digits);
    assert(sequence::spec_parse_u32(digits) == Some(v)) by {
        assert(sequence::spec_is_digit(digits[0]));
        assert('+' as int == 43);
        assert(digits[0] != '+');
    }
}

/// The allocated name is fresh: it differs textually from every name
/// already in the listing, well-formed or not, as long as the day's
/// numbers have not exhausted the 32-bit range the parser accepts.
pub proof fn lemma_allocated_name_fresh(names: Seq<Seq<char>>, stamp: Seq<char>, i: int)
    requires
        0 <= i < names.len(),
        sequence::spec_max_entry(names, stamp) < u32::MAX as int,
    ensures
        names[i] != spec_file_name(stamp, sequence::spec_next_sequence(names, stamp)),
{
    let next = sequence::spec_next_sequence(names, stamp);
    sequence::lemma_max_entry_bounds(names, stamp);
    lemma_file_name_round_trip(stamp, next);
    if names[i] == spec_file_name(stamp, next) {
        sequence::lemma_next_exceeds_existing(names, stamp, i, next);
    }
}

/// Relies on chrono's `Local::now` formatted as `%Y%m%d`: the local
/// date with a year of at least four digits and two digits each for
/// month and day.
#[verifier::external_body]
fn today_stamp() -> (r: String)
    ensures
        r@.len() >= 8,
{
    chrono::Local::now().format("%Y%m%d").to_string()
}

/// Relies on chrono's `Local::now` formatted as `%Y-%m-%d %H:%M`: the
/// local date and time, at least sixteen characters.
#[verifier::external_body]
fn now_timestamp() -> (r: String)
    ensures
        r@.len() >= 16,
{
    chrono::Local::now().format("%Y-%m-%d %H:%M").to_string()
}

/// Issues a receipt dated now: reads the clock for the date stamp and
/// the header timestamp, then runs the issuance pipeline. Whatever the
/// clock returned, the validation and authorization outcomes are those
/// of `issue`, and a success carries the sequence number allocated for
/// the stamp that was read.
pub fn issue_now(
    request: &ReceiptRequest,
    session_privilege: bool,
    password_is_admin: bool,
    existing_names: &Vec<String>,
) -> (r: Result<IssueOutcome, IssueError>)
    ensures
        r is Err <==> (request.lines@.len() == 0 || auth::spec_authorize(
            request.is_day_closure,
            session_privilege,
            request.admin_password is Some,
            password_is_admin,
        ) is Err),
        request.lines@.len() == 0 ==> r == Err::<IssueOutcome, IssueError>(IssueError::EmptyRequest),
        request.lines@.len() > 0 && auth::spec_authorize(
            request.is_day_closure,
            session_privilege,
            request.admin_password is Some,
            password_is_admin,
        ) is Err ==> r == Err::<IssueOutcome, IssueError>(
            IssueError::Auth(
                auth::spec_authorize(
                    request.is_day_closure,
                    session_privilege,
                    request.admin_password is Some,
                    password_is_admin,
                )->Err_0,
            ),
        ),
        r is Ok ==> (exists|stamp: Seq<char>|
            stamp.len() >= 8 && r->Ok_0.sequence == #[trigger] sequence::spec_next_sequence(
                existing_names.deep_view(),
                stamp,
            ) && r->Ok_0.file_name@ == spec_file_name(stamp, r->Ok_0.sequence as int)),
        r is Ok ==> (exists|ts: Seq<char>|
            ts.len() >= 16 && r->Ok_0.document@ == #[trigger] layout::spec_document(
                PageGeometry::spec_standard(),
                spec_title(request.is_day_closure),
                ts,
                layout::spec_rows_of(request.lines.deep_view()),
                request.total_cents as int,
            )),
{
    let stamp = today_stamp();
    let timestamp = now_timestamp();
    let r = issue(
        request,
        session_privilege,
        password_is_admin,
        existing_names,
        stamp.as_str(),
        timestamp.as_str(),
    );
    proof {
        if r is Ok {
            assert(stamp@.len() >= 8 && r->Ok_0.sequence == sequence::spec_next_sequence(
                existing_names.deep_view(),
                stamp@,
            ) && r->Ok_0.file_name@ == spec_file_name(stamp@, r->Ok_0.sequence as int));
            assert(timestamp@.len() >= 16 && r->Ok_0.document@ == layout::spec_document(
                PageGeometry::spec_standard(),
                spec_title(request.is_day_closure),
                timestamp@,
                layout::spec_rows_of(request.lines.deep_view()),
                request.total_cents as int,
            ));
        }
    }
    r
}

} // verus!
