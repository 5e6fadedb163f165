//! The document renderer: lays a list of sale lines out into
//! fixed-size pages of positioned text spans.
//!
//! A page has a home margin (`start_y`) and a content floor (`min_y`),
//! both in layout units measured from the page bottom. Every page
//! begins with a three-row header; each sale row and the total footer
//! consume a fixed vertical drop. Before a row or the footer is
//! placed, a new page is started if the remaining budget is
//! insufficient — a greedy, single-pass pagination that never reflows
//! placed content and never splits the footer.

use crate::text;
use vstd::arithmetic::div_mod::{lemma_fundamental_div_mod, lemma_fundamental_div_mod_converse};
use vstd::arithmetic::mul::lemma_mul_inequality;
use vstd::prelude::*;

verus! {

/// One sale line as the renderer receives it. The subtotal is
/// caller-supplied and rendered as given, not recomputed.
pub struct SaleLine {
    pub id: i64,
    pub name: String,
    pub quantity: i64,
    pub unit_price_cents: u64,
    pub subtotal_cents: u64,
}

/// Mathematical image of a sale line.
pub struct SaleLineView {
    pub id: int,
    pub name: Seq<char>,
    pub quantity: int,
    pub unit_price_cents: int,
    pub subtotal_cents: int,
}

impl View for SaleLine {
    type V = SaleLineView;

    open spec fn view(&self) -> SaleLineView {
        SaleLineView {
            id: self.id as int,
            name: self.name@,
            quantity: self.quantity as int,
            unit_price_cents: self.unit_price_cents as int,
            subtotal_cents: self.subtotal_cents as int,
        }
    }
}

impl DeepView for SaleLine {
    type V = SaleLineView;

    open spec fn deep_view(&self) -> SaleLineView {
        self.view()
    }
}

/// One piece of text placed on a page at height `y`.
pub struct TextSpan {
    pub text: String,
    pub y: u64,
    pub font_size: u64,
    pub bold: bool,
}

/// Mathematical image of a placed text span.
#[verifier::ext_equal]
pub struct SpanView {
    pub text: Seq<char>,
    pub y: int,
    pub font_size: int,
    pub bold: bool,
}

impl View for TextSpan {
    type V = SpanView;

    open spec fn view(&self) -> SpanView {
        SpanView {
            text: self.text@,
            y: self.y as int,
            font_size: self.font_size as int,
            bold: self.bold,
        }
    }
}

/// One rendered page: its text spans in drawing order.
pub struct Page {
    pub spans: Vec<TextSpan>,
}

impl View for Page {
    type V = Seq<SpanView>;

    open spec fn view(&self) -> Seq<SpanView> {
        Seq::new(self.spans@.len(), |i: int| self.spans@[i]@)
    }
}

/// The rendered document: its pages in order.
pub struct ReceiptDocument {
    pub pages: Vec<Page>,
}

impl View for ReceiptDocument {
    type V = Seq<Seq<SpanView>>;

    open spec fn view(&self) -> Seq<Seq<SpanView>> {
        Seq::new(self.pages@.len(), |i: int| self.pages@[i]@)
    }
}

/// The vertical layout of a page, in layout units from the bottom.
#[derive(Clone, Copy, PartialEq, Eq, Structural, Debug)]
pub struct PageGeometry {
    /// Height at which the header starts on a fresh page.
    pub start_y: u64,
    /// Content floor: nothing is drawn below this height.
    pub min_y: u64,
    /// Vertical room the three header rows consume.
    pub header_drop: u64,
    /// Vertical drop of each sale row.
    pub line_drop: u64,
    /// Vertical drop of the total footer.
    pub footer_drop: u64,
}

impl PageGeometry {
    /// A usable layout: positive drops, the header block deep enough
    /// for its three rows, and room for at least one row and for the
    /// footer below a fresh header.
    pub open spec fn wf(self) -> bool {
        &&& 1 <= self.line_drop
        &&& 1 <= self.footer_drop
        &&& 18 < self.header_drop
        &&& 1 <= self.min_y
        &&& self.start_y >= self.header_drop + self.line_drop + self.min_y
        &&& self.start_y >= self.header_drop + self.footer_drop + self.min_y
        &&& self.start_y <= 1000000
    }

    /// The receipt page layout: home margin 170, floor 18, a 24-unit
    /// header block, 5-unit rows and a 10-unit footer.
    pub open spec fn spec_standard() -> PageGeometry {
        PageGeometry { start_y: 170, min_y: 18, header_drop: 24, line_drop: 5, footer_drop: 10 }
    }

    /// Builds the standard receipt page layout.
    pub fn standard() -> (g: PageGeometry)
        ensures
            g == Self::spec_standard(),
            g.wf(),
    {
        PageGeometry { start_y: 170, min_y: 18, header_drop: 24, line_drop: 5, footer_drop: 10 }
    }
}

/// Height at which content starts, below the header of a fresh page.
pub open spec fn spec_content_start(g: PageGeometry) -> int {
    g.start_y - g.header_drop
}

/// How many sale rows fit on one page.
pub open spec fn spec_capacity(g: PageGeometry) -> int {
    (spec_content_start(g) - g.min_y) / (g.line_drop as int)
}

/// Pages that carry rows (a single header-only page when there are no
/// rows at all).
pub open spec fn spec_content_pages(n: int, c: int) -> int {
    if n == 0 {
        1
    } else {
        (n + c - 1) / c
    }
}

/// Rows on the last content page.
pub open spec fn spec_rows_on_last(n: int, c: int) -> int {
    n - (spec_content_pages(n, c) - 1) * c
}

/// The footer starts a page of its own when fewer than `footer_drop`
/// units remain above the floor of the last content page.
pub open spec fn spec_footer_alone(g: PageGeometry, n: int) -> bool {
    spec_content_start(g) - spec_rows_on_last(n, spec_capacity(g)) * g.line_drop - g.footer_drop
        < g.min_y
}

/// Total number of pages of the rendered document.
pub open spec fn spec_page_count(g: PageGeometry, n: int) -> int {
    spec_content_pages(n, spec_capacity(g)) + if spec_footer_alone(g, n) {
        1int
    } else {
        0int
    }
}

/// The fixed column header row.
pub open spec fn spec_column_header() -> Seq<char> {
    "ID  Producto                           Cant  Precio   Subtotal"@
}

/// The three header rows drawn at the top of every page: the title in
/// bold, the timestamp line, and the column header.
pub open spec fn spec_header_spans(g: PageGeometry, title: Seq<char>, timestamp: Seq<char>) -> Seq<
    SpanView,
> {
    seq![
        SpanView { text: title, y: g.start_y as int, font_size: 14, bold: true },
        SpanView {
            text: "Fecha: "@ + timestamp,
            y: g.start_y - 8,
            font_size: 10,
            bold: false,
        },
        SpanView { text: spec_column_header(), y: g.start_y - 18, font_size: 9, bold: true },
    ]
}

/// The `k`-th row placed on a page (counting from zero).
pub open spec fn spec_row_span(g: PageGeometry, row: Seq<char>, k: int) -> SpanView {
    SpanView {
        text: row,
        y: spec_content_start(g) - (k + 1) * g.line_drop,
        font_size: 9,
        bold: false,
    }
}

/// The row spans of content page `p`.
pub open spec fn spec_rows_of_page(g: PageGeometry, rows: Seq<Seq<char>>, p: int) -> Seq<SpanView> {
    let c = spec_capacity(g);
    let lo = p * c;
    let hi = if (p + 1) * c < rows.len() {
        (p + 1) * c
    } else {
        rows.len() as int
    };
    if 0 <= lo <= hi {
        Seq::new((hi - lo) as nat, |k: int| spec_row_span(g, rows[lo + k], k))
    } else {
        Seq::empty()
    }
}

/// The footer's text: the grand total.
pub open spec fn spec_footer_text(total_cents: int) -> Seq<char> {
    "Total: "@ + text::spec_money(total_cents)
}

/// Height of the footer, under the last row or under a fresh header.
pub open spec fn spec_footer_y(g: PageGeometry, n: int) -> int {
    if spec_footer_alone(g, n) {
        spec_content_start(g) - g.footer_drop
    } else {
        spec_content_start(g) - spec_rows_on_last(n, spec_capacity(g)) * g.line_drop
            - g.footer_drop
    }
}

/// The footer span: the grand total in bold.
pub open spec fn spec_footer_span(g: PageGeometry, total_cents: int, n: int) -> SpanView {
    SpanView {
        text: spec_footer_text(total_cents),
        y: spec_footer_y(g, n),
        font_size: 12,
        bold: true,
    }
}

/// Page `p` of the rendered document: the header, then the page's
/// rows, with the footer appended on the last page only.
pub open spec fn spec_page(
    g: PageGeometry,
    title: Seq<char>,
    timestamp: Seq<char>,
    rows: Seq<Seq<char>>,
    total_cents: int,
    p: int,
) -> Seq<SpanView> {
    let n = rows.len() as int;
    let cp = spec_content_pages(n, spec_capacity(g));
    let last = spec_page_count(g, n) - 1;
    let header = spec_header_spans(g, title, timestamp);
    if p < cp {
        let body = header + spec_rows_of_page(g, rows, p);
        if p == last {
            body.push(spec_footer_span(g, total_cents, n))
        } else {
            body
        }
    } else {
        header.push(spec_footer_span(g, total_cents, n))
    }
}

/// The whole rendered document.
pub open spec fn spec_document(
    g: PageGeometry,
    title: Seq<char>,
    timestamp: Seq<char>,
    rows: Seq<Seq<char>>,
    total_cents: int,
) -> Seq<Seq<SpanView>> {
    Seq::new(
        spec_page_count(g, rows.len() as int) as nat,
        |p: int| spec_page(g, title, timestamp, rows, total_cents, p),
    )
}

/// The formatted row texts of a line list, in order.
pub open spec fn spec_rows_of(lines: Seq<SaleLineView>) -> Seq<Seq<char>> {
    Seq::new(
        lines.len(),
        |i: int|
            text::spec_row(
                lines[i].id,
                lines[i].name,
                lines[i].quantity,
                lines[i].unit_price_cents,
                lines[i].subtotal_cents,
            ),
    )
}

pub proof fn lemma_capacity_bounds(g: PageGeometry)
    requires
        g.wf(),
    ensures
        1 <= spec_capacity(g) <= 1000000,
{
    let l = g.line_drop as int;
    let x = spec_content_start(g) - g.min_y;
    lemma_fundamental_div_mod(x, l);
    assert(x >= l);
    assert(x / l >= 1) by {
        if x / l <= 0 {
            lemma_mul_inequality(x / l, 0, l);
        }
    }
    assert(x / l <= x) by {
        if x / l > x {
            lemma_mul_inequality(x + 1, x / l, l);
            assert((x + 1) * l >= x + 1) by (nonlinear_arith)
                requires
                    l >= 1,
                    x >= 0,
            ;
        }
    }
}

/// A row fits on a page that already carries `k` rows exactly when
/// `k` is below the page capacity.
pub proof fn lemma_row_fits_iff(g: PageGeometry, k: int)
    requires
        g.wf(),
        0 <= k,
    ensures
        (spec_content_start(g) - k * g.line_drop >= g.min_y + g.line_drop) <==> k < spec_capacity(
            g,
        ),
{
    let l = g.line_drop as int;
    let x = spec_content_start(g) - g.min_y;
    let c = x / l;
    lemma_fundamental_div_mod(x, l);
    assert((k + 1) * l == k * l + l) by (nonlinear_arith);
    if k + 1 <= c {
        lemma_mul_inequality(k + 1, c, l);
        assert(c * l <= x);
    }
    if k + 1 > c {
        lemma_mul_inequality(c + 1, k + 1, l);
        assert((c + 1) * l == c * l + l) by (nonlinear_arith);
        assert(c * l + l > x);
    }
}

pub proof fn lemma_content_pages_split(n: int, c: int, p: int, k: int)
    requires
        c >= 1,
        p >= 0,
        1 <= k <= c,
        n == p * c + k,
    ensures
        spec_content_pages(n, c) == p + 1,
        spec_rows_on_last(n, c) == k,
{
    assert(n >= 1) by {
        assert(p * c >= 0) by (nonlinear_arith)
            requires
                p >= 0,
                c >= 1,
        ;
    }
    assert(n + c - 1 == (p + 1) * c + (k - 1)) by (nonlinear_arith)
        requires
            n == p * c + k,
    ;
    lemma_fundamental_div_mod_converse(n + c - 1, c, p + 1, k - 1);
}

pub proof fn lemma_content_pages_bounds(n: int, c: int)
    requires
        c >= 1,
        n >= 0,
    ensures
        spec_content_pages(n, c) >= 1,
        spec_content_pages(n, c) * c >= n,
        n > 0 ==> (spec_content_pages(n, c) - 1) * c <= n - 1,
{
    if n > 0 {
        lemma_fundamental_div_mod(n + c - 1, c);
        let cp = (n + c - 1) / c;
        let rem = (n + c - 1) % c;
        assert(n + c - 1 == c * cp + rem);
        assert(cp >= 1) by {
            if cp <= 0 {
                lemma_mul_inequality(cp, 0, c);
                assert(cp * c == c * cp) by (nonlinear_arith);
            }
        }
        assert(cp * c == c * cp) by (nonlinear_arith);
        assert((cp - 1) * c == c * cp - c) by (nonlinear_arith);
    } else {
        assert(1 * c >= 0) by (nonlinear_arith)
            requires
                c >= 1,
        ;
    }
}

/// The shape every rendered document has: at least one page, every
/// page opening with the three header rows, and the grand-total footer
/// exactly once — as the last span of the last page, never split
/// across pages. The footer is the only span at its font size.
pub proof fn lemma_page_structure(
    g: PageGeometry,
    title: Seq<char>,
    timestamp: Seq<char>,
    rows: Seq<Seq<char>>,
    total_cents: int,
)
    requires
        g.wf(),
    ensures
        ({
            let doc = spec_document(g, title, timestamp, rows, total_cents);
            let footer = spec_footer_span(g, total_cents, rows.len() as int);
            &&& doc.len() == spec_page_count(g, rows.len() as int) >= 1
            &&& forall|p: int|
                0 <= p < doc.len() ==> (#[trigger] doc[p]).len() >= 3 && doc[p].subrange(0, 3)
                    =~~= spec_header_spans(g, title, timestamp)
            &&& doc[doc.len() - 1].last() == footer
            &&& forall|p: int, t: int|
                0 <= p < doc.len() && 0 <= t < (#[trigger] doc[p]).len() && !(p == doc.len() - 1
                    && t == doc[p].len() - 1) ==> (#[trigger] doc[p][t]).font_size != 12
        }),
{
    let doc = spec_document(g, title, timestamp, rows, total_cents);
    let footer = spec_footer_span(g, total_cents, rows.len() as int);
    let header = spec_header_spans(g, title, timestamp);
    let n = rows.len() as int;
    let c = spec_capacity(g);
    let cp = spec_content_pages(n, c);
    lemma_capacity_bounds(g);
    lemma_content_pages_bounds(n, c);
    assert forall|p: int| 0 <= p < doc.len() implies (#[trigger] doc[p]).len() >= 3 && doc[p]
        .subrange(0, 3) =~~= header by {
        assert(doc[p] == spec_page(g, title, timestamp, rows, total_cents, p));
        if p < cp {
            let body = spec_rows_of_page(g, rows, p);
            assert((header + body).subrange(0, 3) =~~= header);
            assert((header + body).push(footer).subrange(0, 3) =~~= header);
        } else {
            assert(header.push(footer).subrange(0, 3) =~~= header);
        }
    }
    assert(doc[doc.len() - 1].last() == footer) by {
        let last = doc.len() - 1;
        assert(doc[last] == spec_page(g, title, timestamp, rows, total_cents, last));
    }
    assert forall|p: int, t: int|
        0 <= p < doc.len() && 0 <= t < (#[trigger] doc[p]).len() && !(p == doc.len() - 1 && t
            == doc[p].len() - 1) implies (#[trigger] doc[p][t]).font_size != 12 by {
        assert(doc[p] == spec_page(g, title, timestamp, rows, total_cents, p));
        if p < cp {
            let body = spec_rows_of_page(g, rows, p);
            if t >= 3 && t < 3 + body.len() {
                assert(body[t - 3].font_size == 9);
            }
        }
    }
}

/// Builds a fresh page holding the three header rows.
fn header_page(g: &PageGeometry, title: &str, timestamp: &str) -> (page: Page)
    requires
        g.wf(),
    ensures
        page@ == spec_header_spans(*g, title@, timestamp@),
{
    let mut spans: Vec<TextSpan> = Vec::new();
    spans.push(TextSpan { text: String::from_str(title), y: g.start_y, font_size: 14, bold: true });
    let mut date_line = String::from_str("Fecha: ");
    date_line.append(timestamp);
    spans.push(TextSpan { text: date_line, y: g.start_y - 8, font_size: 10, bold: false });
    spans.push(
        TextSpan {
            text: String::from_str("ID  Producto                           Cant  Precio   Subtotal"),
            y: g.start_y - 18,
            font_size: 9,
            bold: true,
        },
    );
    let page = Page { spans };
    proof {
        assert(page@ =~~= spec_header_spans(*g, title@, timestamp@));
    }
    page
}

/// Builds the footer's text.
fn footer_text(total_cents: u64) -> (r: String)
    ensures
        r@ == spec_footer_text(total_cents as int),
{
    let mut r = String::from_str("Total: ");
    let money = text::money_string(total_cents);
    r.append(money.as_str());
    r
}

/// Lays the sale lines out into pages: a header on every page, at most
/// `spec_capacity` rows per page in order, and the grand-total footer
/// once at the end, on a page of its own when it does not fit under
/// the last row.
pub fn render(
    lines: &Vec<SaleLine>,
    total_cents: u64,
    title: &str,
    timestamp: &str,
    g: &PageGeometry,
) -> (doc: ReceiptDocument)
    requires
        g.wf(),
    ensures
        doc@ == spec_document(
            *g,
            title@,
            timestamp@,
            spec_rows_of(lines.deep_view()),
            total_cents as int,
        ),
        doc@.len() == spec_page_count(*g, lines@.len() as int),
{
    let ghost rows_all = spec_rows_of(lines.deep_view());
    let ghost c = spec_capacity(*g);
    proof {
        lemma_capacity_bounds(*g);
        assert(rows_all.len() == lines@.len());
    }
    let n = lines.len();
    let mut pages: Vec<Page> = Vec::new();
    let mut cur: Page = header_page(g, title, timestamp);
    let mut rows_on_cur: usize = 0;
    let mut cursor: u64 = g.start_y - g.header_drop;
    let mut i: usize = 0;
    proof {
        assert(cur@ =~~= spec_header_spans(*g, title@, timestamp@) + Seq::<SpanView>::empty());
    }
    while i < n
        invariant
            g.wf(),
            c == spec_capacity(*g),
            1 <= c <= 1000000,
            rows_all == spec_rows_of(lines.deep_view()),
            rows_all.len() == lines@.len(),
            n == lines@.len(),
            i <= n,
            rows_on_cur as int <= c,
            pages@.len() >= 1 ==> rows_on_cur >= 1,
            i as int == pages@.len() * c + rows_on_cur as int,
            cursor as int == spec_content_start(*g) - rows_on_cur as int * g.line_drop,
            cursor >= g.min_y,
            forall|q: int|
                0 <= q < pages@.len() ==> (#[trigger] pages@[q])@ == spec_header_spans(
                    *g,
                    title@,
                    timestamp@,
                ) + spec_rows_of_page(*g, rows_all, q),
            cur@ == spec_header_spans(*g, title@, timestamp@) + Seq::new(
                rows_on_cur as nat,
                |t: int| spec_row_span(*g, rows_all[pages@.len() * c + t], t),
            ),
        decreases n - i,
    {
        let line = &lines[i];
        let row = text::row_text(
            line.id,
            line.name.as_str(),
            line.quantity,
            line.unit_price_cents,
            line.subtotal_cents,
        );
        proof {
            assert(lines.deep_view()[i as int] == lines@[i as int]@);
            assert(row@ == rows_all[i as int]);
        }
        if cursor < g.min_y + g.line_drop {
            proof {
                lemma_row_fits_iff(*g, rows_on_cur as int);
                assert(rows_on_cur as int == c);
                let p = pages@.len() as int;
                assert((p + 1) * c == p * c + c) by (nonlinear_arith);
                assert((p + 1) * c < rows_all.len());
                assert(cur@ =~~= spec_header_spans(*g, title@, timestamp@) + spec_rows_of_page(
                    *g,
                    rows_all,
                    p,
                ));
            }
            pages.push(cur);
            cur = header_page(g, title, timestamp);
            cursor = g.start_y - g.header_drop;
            rows_on_cur = 0;
            proof {
                assert(cur@ =~~= spec_header_spans(*g, title@, timestamp@) + Seq::new(
                    0,
                    |t: int| spec_row_span(*g, rows_all[pages@.len() * c + t], t),
                ));
            }
        }
        proof {
            lemma_row_fits_iff(*g, rows_on_cur as int);
            assert((rows_on_cur as int) < c);
        }
        cursor = cursor - g.line_drop;
        let span = TextSpan { text: row, y: cursor, font_size: 9, bold: false };
        let ghost sv = span@;
        let ghost prev = cur@;
        cur.spans.push(span);
        proof {
            let p = pages@.len() as int;
            let k = rows_on_cur as int;
            assert((k + 1) * g.line_drop == k * g.line_drop + g.line_drop) by (nonlinear_arith);
            assert(prev.len() == 3 + k);
            assert(forall|t: int| 0 <= t < prev.len() ==> #[trigger] cur@[t] == prev[t]);
            assert(cur@[3 + k] == sv);
            assert(sv =~~= spec_row_span(*g, rows_all[p * c + k], k));
            assert(cur@ =~~= spec_header_spans(*g, title@, timestamp@) + Seq::new(
                (k + 1) as nat,
                |t: int| spec_row_span(*g, rows_all[p * c + t], t),
            ));
        }
        rows_on_cur = rows_on_cur + 1;
        i = i + 1;
    }
    let ghost p_end = pages@.len() as int;
    let ghost k_end = rows_on_cur as int;
    proof {
        if n == 0 {
            assert(p_end == 0 && k_end == 0) by {
                if p_end >= 1 {
                    assert(p_end * c >= 1) by (nonlinear_arith)
                        requires
                            p_end >= 1,
                            c >= 1,
                    ;
                }
            }
            assert(spec_content_pages(0, c) == 1);
            assert(spec_rows_on_last(0, c) == 0) by {
                assert(0 * c == 0) by (nonlinear_arith);
            }
            assert(!spec_footer_alone(*g, 0));
        } else {
            assert(k_end >= 1) by {
                if p_end == 0 {
                }
            }
            lemma_content_pages_split(n as int, c, p_end, k_end);
            assert(spec_content_pages(n as int, c) == p_end + 1);
            assert(spec_rows_on_last(n as int, c) == k_end);
        }
    }
    if cursor < g.min_y + g.footer_drop {
        proof {
            assert(n as int > 0);
            assert(spec_footer_alone(*g, n as int));
            assert((p_end + 1) * c == p_end * c + c) by (nonlinear_arith);
            assert(cur@ =~~= spec_header_spans(*g, title@, timestamp@) + spec_rows_of_page(
                *g,
                rows_all,
                p_end,
            ));
        }
        pages.push(cur);
        cur = header_page(g, title, timestamp);
        cursor = g.start_y - g.header_drop;
    } else {
        proof {
            assert(!spec_footer_alone(*g, n as int));
        }
    }
    cursor = cursor - g.footer_drop;
    let footer = footer_text(total_cents);
    cur.spans.push(TextSpan { text: footer, y: cursor, font_size: 12, bold: true });
    pages.push(cur);
    let doc = ReceiptDocument { pages };
    proof {
        let nn = n as int;
        let cp = spec_content_pages(nn, c);
        let total = spec_page_count(*g, nn);
        let fa = spec_footer_alone(*g, nn);
        assert(cursor as int == spec_footer_y(*g, nn));
        if fa {
            assert(doc.pages@.len() == cp + 1 == total);
            assert(doc.pages@[total - 1]@ =~~= spec_header_spans(*g, title@, timestamp@).push(
                spec_footer_span(*g, total_cents as int, nn),
            ));
        } else {
            assert(doc.pages@.len() == cp == total);
            if nn == 0 {
                assert(doc.pages@[total - 1]@ =~~= (spec_header_spans(*g, title@, timestamp@)
                    + spec_rows_of_page(*g, rows_all, total - 1)).push(
                    spec_footer_span(*g, total_cents as int, nn),
                ));
            } else {
                assert((p_end + 1) * c == p_end * c + c) by (nonlinear_arith);
                assert(doc.pages@[total - 1]@ =~~= (spec_header_spans(*g, title@, timestamp@)
                    + spec_rows_of_page(*g, rows_all, p_end)).push(
                    spec_footer_span(*g, total_cents as int, nn),
                ));
            }
        }
        assert(doc@ =~~= spec_document(*g, title@, timestamp@, rows_all, total_cents as int));
    }
    doc
}

} // verus!
