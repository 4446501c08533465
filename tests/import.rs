use inkodo_import::canvas::{plan_canvas, CanvasPlan, Grid};
use inkodo_import::geometry::{
    offset_of_page, place_image, place_stroke, resolve_size, Dim, PressureCurve, Rect, Sample,
    StrokeRecord,
};
use inkodo_import::hex::{from_hex, HexError, Rgba};
use inkodo_import::manifest::{parse_asset_manifest, split_bytes, ManifestError};
use inkodo_import::reconcile::{order_pages, reconcile};
use inkodo_import::records::{
    output_file_name, record_name_matches, unnamed_book_title, Book, BookRecord, CanvasStyle, Page,
};

fn rgba(r: u8, g: u8, b: u8, a: u8) -> Rgba {
    Rgba { r, g, b, a }
}

fn page(id: u64, book_ref: u64, display_order: u64) -> Page {
    Page {
        id,
        book_ref,
        color: rgba(255, 255, 255, 255),
        display_order,
        width: 200,
        height: 300,
        style: CanvasStyle::Plain,
        grid_size: 0,
        lines_color: rgba(0, 0, 0, 0),
    }
}

fn book(id: u64, title: &str) -> BookRecord {
    BookRecord { id, title: title.as_bytes().to_vec() }
}

fn ids(pages: &[Page]) -> Vec<u64> {
    pages.iter().map(|p| p.id).collect()
}

#[test]
fn hex_decodes_argb_into_rgba() {
    assert_eq!(from_hex(b"#FF102030"), Ok(rgba(0x10, 0x20, 0x30, 0xFF)));
    assert_eq!(from_hex(b"#80abcdef"), Ok(rgba(0xAB, 0xCD, 0xEF, 0x80)));
    assert_eq!(from_hex(b"#00000000"), Ok(rgba(0, 0, 0, 0)));
}

#[test]
fn hex_round_trips_channel_values() {
    for c in [rgba(1, 2, 3, 4), rgba(255, 0, 128, 17), rgba(0xAB, 0xCD, 0xEF, 0x12)] {
        let text = format!("#{:02X}{:02X}{:02X}{:02X}", c.a, c.r, c.g, c.b);
        assert_eq!(from_hex(text.as_bytes()), Ok(c));
        let lower = text.to_lowercase();
        assert_eq!(from_hex(lower.as_bytes()), Ok(c));
    }
}

#[test]
fn hex_rejects_wrong_length() {
    assert_eq!(from_hex(b""), Err(HexError::Length));
    assert_eq!(from_hex(b"#FF10203"), Err(HexError::Length));
    assert_eq!(from_hex(b"#FF1020300"), Err(HexError::Length));
    assert_eq!(from_hex(b"#FFF"), Err(HexError::Length));
}

#[test]
fn hex_rejects_non_hex_digits() {
    assert_eq!(from_hex(b"#GG102030"), Err(HexError::Digit));
    assert_eq!(from_hex(b"#FF10203z"), Err(HexError::Digit));
    assert_eq!(from_hex(b"#+F102030"), Err(HexError::Digit));
    assert_eq!(from_hex(b"#FF 02030"), Err(HexError::Digit));
}

#[test]
fn record_names_need_extension_and_prefix() {
    assert!(record_name_matches(b"book_1.db", b"db", b"book_"));
    assert!(record_name_matches(b"book_1.tar.db", b"db", b"book_"));
    assert!(record_name_matches(b"page12.db", b"db", b"page"));
    assert!(!record_name_matches(b"page12.db", b"db", b"book_"));
    assert!(!record_name_matches(b"book_1.dbx", b"db", b"book_"));
    assert!(!record_name_matches(b"book_1", b"db", b"book_"));
    assert!(!record_name_matches(b".db", b"db", b""));
    assert!(!record_name_matches(b"book_1.db.json", b"db", b"book_"));
}

#[test]
fn unnamed_titles_count_in_decimal() {
    assert_eq!(unnamed_book_title(0), b"Unnamed_0".to_vec());
    assert_eq!(unnamed_book_title(7), b"Unnamed_7".to_vec());
    assert_eq!(unnamed_book_title(1204), b"Unnamed_1204".to_vec());
}

#[test]
fn style_tag_grid_is_case_sensitive() {
    assert_eq!(CanvasStyle::from_tag(b"GRID"), CanvasStyle::Grid);
    assert_eq!(CanvasStyle::from_tag(b"grid"), CanvasStyle::Plain);
    assert_eq!(CanvasStyle::from_tag(b"SINGLE"), CanvasStyle::Plain);
    assert_eq!(CanvasStyle::from_tag(b""), CanvasStyle::Plain);
}

#[test]
fn pages_of_one_book_all_join_it() {
    let pages = vec![page(10, 7, 0), page(11, 7, 0), page(12, 7, 0)];
    let books = reconcile(vec![book(7, "Notes")], &pages);
    assert_eq!(books.len(), 1);
    let b = &books[&7];
    assert_eq!(b.title, b"Notes".to_vec());
    assert_eq!(ids(&b.pages), vec![10, 11, 12]);
}

#[test]
fn dangling_page_is_dropped() {
    let pages = vec![page(10, 7, 0), page(11, 99, 0)];
    let books = reconcile(vec![book(7, "Notes")], &pages);
    assert_eq!(books.len(), 1);
    assert_eq!(ids(&books[&7].pages), vec![10]);
}

#[test]
fn orphans_get_numbered_books() {
    let pages = vec![page(40, 0, 0), page(41, 0, 0)];
    let books = reconcile(vec![], &pages);
    assert_eq!(books.len(), 2);
    assert_eq!(books[&0].title, b"Unnamed_0".to_vec());
    assert_eq!(books[&1].title, b"Unnamed_1".to_vec());
    assert_eq!(ids(&books[&0].pages), vec![40]);
    assert_eq!(ids(&books[&1].pages), vec![41]);
    assert_eq!(books[&0].id, 0);
    assert_eq!(books[&1].id, 1);
}

#[test]
fn orphan_book_replaces_real_book_with_same_key() {
    let pages = vec![page(10, 1, 0), page(40, 0, 0), page(41, 0, 0)];
    let books = reconcile(vec![book(1, "Real")], &pages);
    assert_eq!(books.len(), 2);
    assert_eq!(books[&1].title, b"Unnamed_1".to_vec());
    assert_eq!(ids(&books[&1].pages), vec![41]);
}

#[test]
fn later_book_record_with_same_id_wins() {
    let books = reconcile(vec![book(3, "Old"), book(3, "New")], &vec![page(5, 3, 0)]);
    assert_eq!(books.len(), 1);
    assert_eq!(books[&3].title, b"New".to_vec());
    assert_eq!(ids(&books[&3].pages), vec![5]);
}

#[test]
fn pages_sort_by_display_order() {
    let pages = vec![page(1, 1, 5), page(2, 1, 1), page(3, 1, 3)];
    let sorted = order_pages(&pages);
    assert_eq!(sorted.iter().map(|p| p.display_order).collect::<Vec<_>>(), vec![1, 3, 5]);
    assert_eq!(ids(&sorted), vec![2, 3, 1]);
}

#[test]
fn equal_display_orders_keep_discovery_order() {
    let pages = vec![page(1, 1, 2), page(2, 1, 1), page(3, 1, 2), page(4, 1, 1)];
    assert_eq!(ids(&order_pages(&pages)), vec![2, 4, 1, 3]);
    assert!(order_pages(&vec![]).is_empty());
}

#[test]
fn book_orders_its_pages() {
    let mut b = Book { id: 1, title: b"T".to_vec(), pages: vec![page(1, 1, 9), page(2, 1, 0)] };
    b.order_pages();
    assert_eq!(ids(&b.pages), vec![2, 1]);
    assert_eq!(b.title, b"T".to_vec());
}

fn sized(id: u64, width: u64, height: u64, style: CanvasStyle, grid_size: u64) -> Page {
    Page { width, height, style, grid_size, ..page(id, 1, id) }
}

#[test]
fn grid_height_rounds_up_to_grid() {
    let pages = vec![sized(1, 100, 100, CanvasStyle::Grid, 64), sized(2, 80, 250, CanvasStyle::Plain, 64)];
    let plan = plan_canvas(&pages).unwrap();
    assert_eq!(plan.height, 256);
    assert_eq!(plan.width, 100);
    assert_eq!(plan.grid, Some(Grid { size: 64, color: rgba(0, 0, 0, 0) }));
}

#[test]
fn plain_pages_keep_tallest_height() {
    let pages = vec![sized(1, 100, 100, CanvasStyle::Plain, 64), sized(2, 300, 250, CanvasStyle::Plain, 64)];
    let plan = plan_canvas(&pages).unwrap();
    assert_eq!(plan.height, 250);
    assert_eq!(plan.width, 300);
    assert_eq!(plan.grid, None);
}

#[test]
fn last_page_settings_win() {
    let mut first = sized(1, 100, 100, CanvasStyle::Grid, 50);
    first.color = rgba(1, 2, 3, 4);
    first.lines_color = rgba(9, 9, 9, 9);
    let mut last = sized(2, 100, 100, CanvasStyle::Plain, 30);
    last.color = rgba(5, 6, 7, 8);
    last.lines_color = rgba(7, 7, 7, 7);
    let plan = plan_canvas(&vec![first, last]).unwrap();
    assert_eq!(plan.background, rgba(5, 6, 7, 8));
    assert_eq!(plan.grid, Some(Grid { size: 30, color: rgba(7, 7, 7, 7) }));
    assert_eq!(plan.height, 120);
}

#[test]
fn exact_multiple_and_zero_grid() {
    let exact = plan_canvas(&vec![sized(1, 10, 128, CanvasStyle::Grid, 64)]).unwrap();
    assert_eq!(exact.height, 128);
    let zero = plan_canvas(&vec![sized(1, 10, 130, CanvasStyle::Grid, 0)]).unwrap();
    assert_eq!(zero.height, 130);
}

#[test]
fn empty_book_plans_empty_canvas() {
    let plan = plan_canvas(&vec![]).unwrap();
    assert_eq!(
        plan,
        CanvasPlan { width: 0, height: 0, background: rgba(0, 0, 0, 0), grid: None }
    );
}

#[test]
fn too_tall_grid_canvas_is_refused() {
    let pages = vec![sized(1, 10, u64::MAX - 1, CanvasStyle::Grid, 1 << 40)];
    assert_eq!(plan_canvas(&pages), None);
}

fn stroke(points: Vec<(i64, i64)>, ignore_pressure: bool) -> StrokeRecord {
    StrokeRecord {
        points: points.into_iter().map(|(x, y)| Sample { x, y, pressure: 500 }).collect(),
        color: rgba(10, 20, 30, 255),
        box_width: 3,
        box_height: 5,
        ignore_pressure,
    }
}

#[test]
fn stroke_point_moves_down_by_page_offset() {
    let placed = place_stroke(&stroke(vec![(10, 20)], false), 2, 256).unwrap();
    assert_eq!(placed.points, vec![Sample { x: 10, y: 532, pressure: 500 }]);
    assert_eq!(placed.width, 5);
    assert_eq!(placed.color, rgba(10, 20, 30, 255));
    assert_eq!(placed.pressure_curve, PressureCurve::Linear);
}

#[test]
fn stroke_on_first_page_stays_and_ignores_pressure() {
    let mut s = stroke(vec![(1, 2), (3, -4)], true);
    s.box_width = 9;
    let placed = place_stroke(&s, 0, 300).unwrap();
    assert_eq!(
        placed.points,
        vec![Sample { x: 1, y: 2, pressure: 500 }, Sample { x: 3, y: -4, pressure: 500 }]
    );
    assert_eq!(placed.width, 9);
    assert_eq!(placed.pressure_curve, PressureCurve::Const);
}

#[test]
fn stroke_out_of_range_is_refused() {
    assert!(place_stroke(&stroke(vec![(0, i64::MAX)], false), 1, 1).is_none());
    assert!(place_stroke(&stroke(vec![(0, 0)], false), u64::MAX, 2).is_none());
    assert_eq!(offset_of_page(3, 100), Some(300));
    assert_eq!(offset_of_page(u64::MAX, 2), None);
}

#[test]
fn derived_width_follows_aspect_ratio() {
    assert_eq!(resolve_size(Dim::Derive, Dim::Explicit(50), 200, 100), Some((100, 50)));
}

#[test]
fn derived_height_follows_aspect_ratio() {
    assert_eq!(resolve_size(Dim::Explicit(80), Dim::Derive, 200, 100), Some((80, 40)));
    assert_eq!(resolve_size(Dim::Explicit(7), Dim::Explicit(9), 200, 100), Some((7, 9)));
}

#[test]
fn unresolvable_sizes() {
    assert_eq!(resolve_size(Dim::Derive, Dim::Derive, 200, 100), None);
    assert_eq!(resolve_size(Dim::Derive, Dim::Explicit(50), 200, 0), None);
    assert_eq!(resolve_size(Dim::Explicit(50), Dim::Derive, 0, 100), None);
    assert_eq!(resolve_size(Dim::Derive, Dim::Explicit(u64::MAX), 4, 1), None);
}

#[test]
fn image_lands_on_its_page() {
    assert_eq!(
        place_image(10, 20, 100, 50, 2, 256),
        Some(Rect { x0: 10, y0: 532, x1: 110, y1: 582 })
    );
    assert_eq!(place_image(-5, 0, 10, 10, 0, 256), Some(Rect { x0: -5, y0: 0, x1: 5, y1: 10 }));
    assert_eq!(place_image(i64::MAX, 0, 1, 1, 0, 1), None);
}

#[test]
fn manifest_reads_positional_fields() {
    let text = b"pic.png;a;120;NaN;4;5;6;7;8;9;10;30;40\n\nother.png;;1;2;;;;;;;;3;4;extra\r\n";
    let assets = parse_asset_manifest(text).unwrap();
    assert_eq!(assets.len(), 2);
    assert_eq!(assets[0].filename, b"pic.png".to_vec());
    assert_eq!(assets[0].width, b"120".to_vec());
    assert_eq!(assets[0].height, b"NaN".to_vec());
    assert_eq!(assets[0].x, b"30".to_vec());
    assert_eq!(assets[0].y, b"40".to_vec());
    assert_eq!(assets[1].filename, b"other.png".to_vec());
    assert_eq!(assets[1].y, b"4".to_vec());
}

#[test]
fn manifest_blank_text_has_no_records() {
    assert_eq!(parse_asset_manifest(b"").unwrap().len(), 0);
    assert_eq!(parse_asset_manifest(b"\n\r\n\n").unwrap().len(), 0);
}

#[test]
fn manifest_short_line_is_an_error() {
    let text = b"pic.png;a;120;NaN;4;5;6;7;8;9;10;30;40\nshort;1;2\n";
    assert!(matches!(parse_asset_manifest(text), Err(ManifestError::MissingField)));
}

#[test]
fn split_keeps_empty_fields() {
    assert_eq!(split_bytes(b"a;;b", b';'), vec![b"a".to_vec(), vec![], b"b".to_vec()]);
    assert_eq!(split_bytes(b"", b';'), vec![Vec::<u8>::new()]);
    assert_eq!(split_bytes(b";", b';'), vec![Vec::<u8>::new(), vec![]]);
}

#[test]
fn output_name_appends_extension() {
    assert_eq!(output_file_name(b"Test"), b"Test.rnote".to_vec());
    assert_eq!(output_file_name(b""), b".rnote".to_vec());
}

#[test]
fn one_book_one_page_one_stroke() {
    let pages = vec![Page {
        id: 1,
        book_ref: 1,
        color: rgba(255, 255, 255, 255),
        display_order: 0,
        width: 200,
        height: 300,
        style: CanvasStyle::from_tag(b"SINGLE"),
        grid_size: 0,
        lines_color: rgba(0, 0, 0, 0),
    }];
    let mut books = reconcile(vec![book(1, "Test")], &pages);
    assert_eq!(books.len(), 1);
    let mut b = books.remove(&1).unwrap();
    b.order_pages();
    let plan = plan_canvas(&b.pages).unwrap();
    assert_eq!((plan.width, plan.height), (200, 300));
    assert_eq!(plan.grid, None);
    let mut strokes = Vec::new();
    let mut images = Vec::new();
    for (i, _) in b.pages.iter().enumerate() {
        strokes.push(place_stroke(&stroke(vec![(1, 1), (5, 5)], false), i as u64, plan.height).unwrap());
        images.extend(parse_asset_manifest(b"").unwrap());
    }
    assert_eq!(strokes.len(), 1);
    assert_eq!(images.len(), 0);
    assert_eq!(output_file_name(&b.title), b"Test.rnote".to_vec());
}
