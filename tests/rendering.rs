use maud::markup::{Piece, Template};
use maud::rt::make_markup;
use maud::writer::{BoundedBuffer, FmtError, IoErrorKind, Write};

fn greeting(name: &str) -> Template {
    Template {
        pieces: vec![
            Piece::Raw("<p>".to_string()),
            Piece::Escaped(name.to_string()),
            Piece::Raw("</p>".to_string()),
        ],
    }
}

#[test]
fn greeting_without_specials_renders_verbatim() {
    let m = make_markup(greeting("Hi, Lyra!"));
    assert_eq!(m.to_string(), "<p>Hi, Lyra!</p>");
}

#[test]
fn greeting_with_tag_is_escaped() {
    let m = make_markup(greeting("<b>"));
    assert_eq!(m.to_string(), "<p>&lt;b&gt;</p>");
}

#[test]
fn raw_piece_is_not_escaped() {
    let m = make_markup(Template { pieces: vec![Piece::Raw("<p>Pre-escaped</p>".to_string())] });
    assert_eq!(m.to_string(), "<p>Pre-escaped</p>");
}

#[test]
fn empty_template_renders_nothing() {
    let m = make_markup(Template { pieces: vec![] });
    assert_eq!(m.to_string(), "");
}

#[test]
fn to_string_is_repeatable() {
    let m = make_markup(greeting("Pinkie's Brew"));
    let first = m.to_string();
    let second = m.to_string();
    assert_eq!(first, second);
    assert_eq!(first, "<p>Pinkie&#39;s Brew</p>");
}

#[test]
fn two_writers_receive_the_same_text() {
    let m = make_markup(greeting("a & b"));
    let mut a = BoundedBuffer::new(100);
    let mut b = String::from("x");
    assert!(m.render_fmt(&mut a).is_ok());
    assert!(m.render(&mut b).is_ok());
    assert_eq!(a.contents(), "<p>a &amp; b</p>");
    assert_eq!(b, "x<p>a &amp; b</p>");
    assert_eq!(m.to_string(), a.contents());
}

#[test]
fn render_stops_at_the_first_refusal() {
    let m = make_markup(greeting("Lyra"));
    let mut w = BoundedBuffer::new(9);
    assert_eq!(m.render_fmt(&mut w), Err(FmtError));
    assert_eq!(w.contents(), "<p>Lyra");
}

#[test]
fn refusal_inside_an_escaped_value_stops_there() {
    let m = make_markup(greeting("ab"));
    let mut w = BoundedBuffer::new(4);
    assert!(m.render_fmt(&mut w).is_err());
    assert_eq!(w.contents(), "<p>a");
}

#[test]
fn refusal_of_an_entity_keeps_nothing_of_it() {
    let m = make_markup(greeting("<"));
    let mut w = BoundedBuffer::new(6);
    assert!(m.render_fmt(&mut w).is_err());
    assert_eq!(w.contents(), "<p>");
}

#[test]
fn render_reports_refusal_as_io_error() {
    let m = make_markup(greeting("Lyra"));
    let mut w = BoundedBuffer::new(0);
    let e = m.render(&mut w).unwrap_err();
    assert_eq!(e.kind, IoErrorKind::OtherIoError);
    assert_eq!(e.desc, "formatting error");
    assert_eq!(e.detail, None);
    assert_eq!(w.contents(), "");
}

#[test]
fn bounded_buffer_takes_what_fits() {
    let mut w = BoundedBuffer::new(3);
    assert!(w.write_str("ab").is_ok());
    assert_eq!(w.write_str("cd"), Err(FmtError));
    assert!(w.write_str("c").is_ok());
    assert_eq!(w.contents(), "abc");
}
