use recibos::layout::{render, PageGeometry, SaleLine};

fn lines(count: usize) -> Vec<SaleLine> {
    let mut v = Vec::new();
    for i in 0..count {
        v.push(SaleLine {
            id: i as i64,
            name: format!("item {}", i),
            quantity: 1,
            unit_price_cents: 100,
            subtotal_cents: 100,
        });
    }
    v
}

fn capacity_twenty() -> PageGeometry {
    // (170 - 24 - 42) / 5 = 20 rows per page, and the footer's 4 units
    // still fit under a full page of rows.
    PageGeometry { start_y: 170, min_y: 42, header_drop: 24, line_drop: 5, footer_drop: 4 }
}

#[test]
fn sixty_lines_at_capacity_twenty_make_three_pages() {
    let sale = lines(60);
    let doc = render(&sale, 6000, "Recibo cliente", "2024-01-01 12:00", &capacity_twenty());
    assert_eq!(doc.pages.len(), 3);
    for page in &doc.pages {
        assert_eq!(page.spans[0].text, "Recibo cliente");
        assert_eq!(page.spans[0].font_size, 14);
        assert!(page.spans[0].bold);
        assert_eq!(page.spans[1].text, "Fecha: 2024-01-01 12:00");
        assert_eq!(
            page.spans[2].text,
            "ID  Producto                           Cant  Precio   Subtotal"
        );
    }
    assert_eq!(doc.pages[0].spans.len(), 3 + 20);
    assert_eq!(doc.pages[1].spans.len(), 3 + 20);
    assert_eq!(doc.pages[2].spans.len(), 3 + 20 + 1);
    let footer = doc.pages[2].spans.last().unwrap();
    assert_eq!(footer.text, "Total: $60.00");
    assert!(footer.bold);
    let footer_spans: usize = doc
        .pages
        .iter()
        .flat_map(|p| p.spans.iter())
        .filter(|s| s.text.starts_with("Total: "))
        .count();
    assert_eq!(footer_spans, 1);
}

#[test]
fn standard_layout_fits_twenty_five_rows_per_page() {
    let sale = lines(26);
    let doc = render(&sale, 2600, "Recibo cliente", "2024-01-01 12:00", &PageGeometry::standard());
    assert_eq!(doc.pages.len(), 2);
    assert_eq!(doc.pages[0].spans.len(), 3 + 25);
    assert_eq!(doc.pages[1].spans.len(), 3 + 1 + 1);
}

#[test]
fn footer_moves_to_a_fresh_page_when_the_last_page_is_full() {
    let sale = lines(25);
    let doc = render(&sale, 2500, "Recibo cliente", "2024-01-01 12:00", &PageGeometry::standard());
    assert_eq!(doc.pages.len(), 2);
    assert_eq!(doc.pages[0].spans.len(), 3 + 25);
    assert_eq!(doc.pages[1].spans.len(), 3 + 1);
    assert_eq!(doc.pages[1].spans[3].text, "Total: $25.00");
}

#[test]
fn single_line_gives_one_page_with_footer_under_the_row() {
    let sale = lines(1);
    let doc = render(&sale, 100, "Recibo cliente", "2024-01-01 12:00", &PageGeometry::standard());
    assert_eq!(doc.pages.len(), 1);
    let spans = &doc.pages[0].spans;
    assert_eq!(spans.len(), 3 + 1 + 1);
    // Header at 170, 162, 152; the row at 141; the footer 10 under it.
    assert_eq!(spans[0].y, 170);
    assert_eq!(spans[1].y, 162);
    assert_eq!(spans[2].y, 152);
    assert_eq!(spans[3].y, 141);
    assert_eq!(spans[4].y, 131);
}

#[test]
fn rows_descend_in_fixed_steps() {
    let sale = lines(3);
    let doc = render(&sale, 300, "Recibo cliente", "2024-01-01 12:00", &PageGeometry::standard());
    let spans = &doc.pages[0].spans;
    assert_eq!(spans[3].y, 141);
    assert_eq!(spans[4].y, 136);
    assert_eq!(spans[5].y, 131);
}
