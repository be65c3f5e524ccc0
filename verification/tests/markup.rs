use multiping::icon::make_icon;
use multiping::markup::{break_lines, xml_esc};
use multiping::palette::{host_color, Color, Rgb};

#[test]
fn escaping() {
    assert_eq!(xml_esc("a < b & \"c\" > 'd'"), "a &lt; b &amp; &quot;c&quot; &gt; 'd'");
    assert_eq!(xml_esc("&lt;"), "&amp;lt;");
    assert_eq!(xml_esc(""), "");
    assert_eq!(xml_esc("plain — text"), "plain — text");
}

#[test]
fn escaped_text_is_inert() {
    let s = xml_esc("<a href=\"x\">&amp;</a>");
    assert!(!s.contains('<') && !s.contains('>') && !s.contains('"'));
}

#[test]
fn different_texts_stay_different() {
    let all = ["<", "&lt;", "&amp;lt;", "&", "&amp;", "\"", "&quot;"];
    for a in all {
        for b in all {
            assert_eq!(xml_esc(a) == xml_esc(b), a == b);
        }
    }
}

#[test]
fn line_breaks() {
    assert_eq!(break_lines("a\nb\n\nc"), "a<br>b<br><br>c");
    assert_eq!(break_lines(""), "");
    assert_eq!(break_lines("\r\n"), "\r<br>");
}

#[test]
fn chart_colors_repeat_after_ten() {
    assert_eq!(host_color(0), Rgb { r: 220, g: 50, b: 50 });
    assert_eq!(host_color(9), Rgb { r: 100, g: 100, b: 210 });
    assert_eq!(host_color(10), host_color(0));
    assert_eq!(host_color(usize::MAX), host_color(usize::MAX % 10));
    for i in 0..10 {
        for j in 0..i {
            assert_ne!(host_color(i), host_color(j));
        }
    }
}

#[test]
fn window_colors() {
    let parts = |c: Color| {
        let p = c.rgb();
        (p.r, p.g, p.b)
    };
    assert_eq!(parts(Color::Bg0), (240, 240, 240));
    assert_eq!(parts(Color::Bg1), (243, 243, 243));
    assert_eq!(parts(Color::Bg2), (255, 255, 255));
    assert_eq!(parts(Color::Border), (200, 200, 200));
    assert_eq!(parts(Color::Text), (32, 32, 32));
    assert_eq!(parts(Color::Dim), (110, 110, 110));
    assert_eq!(parts(Color::Info), (0, 102, 204));
    assert_eq!(parts(Color::Good), (16, 124, 16));
    assert_eq!(parts(Color::Warn), (202, 80, 16));
    assert_eq!(parts(Color::Bad), (196, 43, 28));
    assert_eq!(parts(Color::Accent), (0, 102, 204));
}

#[test]
fn icon_pixels() {
    let px = make_icon();
    assert_eq!(px.len(), 32 * 32 * 4);
    let at = |x: usize, y: usize| &px[(y * 32 + x) * 4..(y * 32 + x) * 4 + 4];
    let tile: &[u8] = &[0, 102, 204, 255];
    let white: &[u8] = &[255, 255, 255, 255];
    assert_eq!(at(16, 2), tile);
    assert_eq!(at(9, 15), white);
    assert_eq!(at(7, 26), white);
    assert_eq!(at(7, 27), tile);
    assert_eq!(at(15, 8), white);
    assert_eq!(at(15, 13), tile);
    assert_eq!(at(15, 18), white);
    assert_eq!(at(24, 14), white);
    assert_eq!(at(25, 14), tile);
    let clear: &[u8] = &[0, 0, 0, 0];
    for (x, y) in [(0, 0), (31, 0), (0, 31), (31, 31)] {
        assert_eq!(at(x, y), clear);
    }
    for (x, y) in [(1, 0), (0, 1), (30, 0), (31, 1), (0, 30), (1, 31), (31, 30), (30, 31)] {
        assert_eq!(at(x, y), tile);
    }
}
