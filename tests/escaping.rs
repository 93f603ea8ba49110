use maud::escape;
use maud::rt::{write_fmt, Escaper};
use maud::writer::Write;

#[test]
fn plain_text_is_unchanged() {
    assert_eq!(escape("Hi, Lyra!"), "Hi, Lyra!");
    assert_eq!(escape("Oatmeal, are you crazy?\n"), "Oatmeal, are you crazy?\n");
}

#[test]
fn empty_text_stays_empty() {
    assert_eq!(escape(""), "");
}

#[test]
fn script_tag_is_escaped() {
    assert_eq!(escape("<script>"), "&lt;script&gt;");
}

#[test]
fn quotes_are_escaped() {
    assert_eq!(escape("It's \"ok\""), "It&#39;s &quot;ok&quot;");
}

#[test]
fn ampersand_is_escaped() {
    assert_eq!(escape("a & b"), "a &amp; b");
}

#[test]
fn escaping_twice_double_encodes() {
    let once = escape("&");
    let twice = escape(&once);
    assert_eq!(once, "&amp;");
    assert_eq!(twice, "&amp;amp;");
    assert_ne!(twice, once);
}

#[test]
fn all_five_specials_in_one_string() {
    assert_eq!(escape("&<>\"'"), "&amp;&lt;&gt;&quot;&#39;");
}

#[test]
fn non_ascii_passes_through() {
    assert_eq!(escape("café <ü> ✓"), "café &lt;ü&gt; ✓");
}

#[test]
fn escaper_forwards_to_its_buffer() {
    let mut buf = String::from("<p>");
    {
        let mut e = Escaper::new(&mut buf);
        assert!(e.write_str("a<b").is_ok());
        assert!(e.write_str("&c").is_ok());
    }
    assert_eq!(buf, "<p>a&lt;b&amp;c");
}

#[test]
fn write_fmt_writes_display_text_unescaped() {
    let mut buf = String::new();
    assert!(write_fmt(&mut buf, &(1 + 1)).is_ok());
    assert!(write_fmt(&mut buf, "<br>").is_ok());
    assert_eq!(buf, "2<br>");
}

#[test]
fn write_fmt_through_escaper_escapes() {
    let mut buf = String::new();
    {
        let mut e = Escaper::new(&mut buf);
        assert!(write_fmt(&mut e, "<script>alert(\"XSS\")</script>").is_ok());
    }
    assert_eq!(buf, "&lt;script&gt;alert(&quot;XSS&quot;)&lt;/script&gt;");
}
