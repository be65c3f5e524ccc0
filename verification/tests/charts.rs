use multiping::boxes::{generate_candlestick_svg, place_box};
use multiping::chart::{generate_report_svg, line_color_text, series, x_end, y_top};
use multiping::doc::write_number;
use multiping::host::{Address, Host};
use multiping::number::Number;

const MS: u64 = 1_000_000;
const S: u64 = 1_000_000_000;

/// Answers after 10 and 20 milliseconds, and a lost ping between them.
fn host() -> Host {
    let mut h = Host::new(1, "a&b".to_string(), 1_000, 0);
    h.record(S, Some(10 * MS));
    h.record(2 * S, None);
    h.record(20 * S, Some(20 * MS));
    h
}

fn silent() -> Host {
    let mut h = Host::new(2, "mute".to_string(), 1_000, 1);
    h.record(30 * S, None);
    h.ip = Some(Address { text: "10.0.0.2".to_string(), v6: false });
    h
}

fn number(offset: i64, gain: i64, num: i128, den: u128) -> Number {
    Number { offset, gain, num, den }
}

#[test]
fn axes_have_floors() {
    let none: Vec<&Host> = Vec::new();
    assert_eq!(x_end(&none), 10 * S);
    assert_eq!(y_top(&none, 10 * MS), 10 * MS);
    let h = host();
    let m = silent();
    assert_eq!(x_end(&vec![&h]), 20 * S);
    assert_eq!(x_end(&vec![&m, &h]), 30 * S);
    assert_eq!(y_top(&vec![&m, &h], 10 * MS), 20 * MS);
    assert_eq!(y_top(&vec![&m, &h], 50 * MS), 50 * MS);
}

#[test]
fn every_ping_is_drawn() {
    let (line, crosses) = series(&host());
    assert_eq!(line, vec![(1_000_000_000, 10 * MS), (20_000_000_000, 20 * MS)]);
    assert_eq!(crosses, vec![2_000_000_000]);
}

#[test]
fn line_colors_repeat_after_eight() {
    assert_eq!(line_color_text(0), "#0072BD");
    assert_eq!(line_color_text(3), "#7E2F8E");
    assert_eq!(line_color_text(7), "#00A6A6");
    assert_eq!(line_color_text(9), "#D95319");
}

#[test]
fn chart_of_the_report() {
    let h = host();
    let mut expected = String::from(
        "<svg xmlns=\"http://www.w3.org/2000/svg\" viewBox=\"0 0 1200 420\" \
         style=\"width:100%;max-width:1200px;background:#fff;border:1px solid #ccc;\
         border-radius:4px;display:block\">\n",
    );
    for (y, text_y, label) in [
        ("376.0", "380.0", "0"),
        ("306.8", "310.8", "5"),
        ("237.6", "241.6", "9"),
        ("168.4", "172.4", "14"),
        ("99.2", "103.2", "18"),
        ("30.0", "34.0", "23"),
    ] {
        expected.push_str(&format!(
            "<line x1=\"58\" y1=\"{y}\" x2=\"1180.0\" y2=\"{y}\" stroke=\"#e8e8e8\" stroke-width=\"1\"/>\n\
             <text x=\"54.0\" y=\"{text_y}\" text-anchor=\"end\" font-size=\"10\" fill=\"#888\">{label}</text>\n"
        ));
    }
    for (x, label) in [
        ("58.0", "0"),
        ("245.0", "3"),
        ("432.0", "7"),
        ("619.0", "10"),
        ("806.0", "13"),
        ("993.0", "17"),
        ("1180.0", "20"),
    ] {
        expected.push_str(&format!(
            "<line x1=\"{x}\" y1=\"30\" x2=\"{x}\" y2=\"376.0\" stroke=\"#e8e8e8\" stroke-width=\"1\"/>\n\
             <text x=\"{x}\" y=\"390.0\" text-anchor=\"middle\" font-size=\"10\" fill=\"#888\">{label}</text>\n"
        ));
    }
    expected.push_str(
        "<rect x=\"58\" y=\"30\" width=\"1122\" height=\"346\" fill=\"none\" stroke=\"#aaa\" stroke-width=\"1\"/>\n\
         <text x=\"619.0\" y=\"414.0\" text-anchor=\"middle\" font-size=\"11\" fill=\"#444\">Time (s)</text>\n\
         <text x=\"-203.0\" y=\"14\" text-anchor=\"middle\" font-size=\"11\" fill=\"#444\" transform=\"rotate(-90)\">RTT (ms)</text>\n\
         <polyline points=\"114.1,225.6 1180.0,75.1\" fill=\"none\" stroke=\"#0072BD\" stroke-width=\"1.5\" stroke-linejoin=\"round\"/>\n\
         <text x=\"170.2\" y=\"374.0\" text-anchor=\"middle\" font-size=\"9\" fill=\"#C42B1C\">✕</text>\n\
         <line x1=\"66.0\" y1=\"42.0\" x2=\"84.0\" y2=\"42.0\" stroke=\"#0072BD\" stroke-width=\"2\"/>\n\
         <text x=\"88.0\" y=\"46.0\" font-size=\"11\" fill=\"#333\">a&amp;b</text>\n\
         </svg>",
    );
    assert_eq!(generate_report_svg(&vec![&h]).join(), expected);
}

#[test]
fn chart_without_answers_has_only_crosses() {
    let m = silent();
    let h = host();
    let text = generate_report_svg(&vec![&m]).join();
    assert!(!text.contains("<polyline"));
    assert_eq!(text.matches('✕').count(), 1);
    let both = generate_report_svg(&vec![&h, &m]).join();
    assert!(both.contains("<line x1=\"216.0\" y1=\"42.0\" x2=\"234.0\" y2=\"42.0\" stroke=\"#D95319\""));
    assert_eq!(both.matches('✕').count(), 2);
}

#[test]
fn places_of_a_box_plot() {
    let h = host();
    // On an axis of 100 for 20 ms: 10 ms stand at 50, the quartiles at 62.5,
    // 75 and 87.5, and 20 ms at 100.
    let b = place_box(&h, 20 * MS, 0, 100);
    assert_eq!(write_number(&b.min, 1), "50.0");
    assert_eq!(write_number(&b.p25, 1), "62.5");
    assert_eq!(write_number(&b.median, 1), "75.0");
    assert_eq!(write_number(&b.p75, 1), "87.5");
    assert_eq!(write_number(&b.max, 1), "100.0");
    assert_eq!(write_number(&b.mean, 1), "75.0");
    assert_eq!(write_number(&b.spread, 1), "25.0");
    assert_eq!(b.min, number(0, 100, 10 * MS as i128, 20 * MS as u128));
}

#[test]
fn narrow_boxes_are_widened() {
    let mut h = Host::new(1, "x".to_string(), 1_000, 0);
    h.record(S, Some(40 * MS));
    let b = place_box(&h, 100 * MS, 10, 300);
    assert_eq!(write_number(&b.min, 1), "130.0");
    assert_eq!(write_number(&b.max, 1), "132.0");
    assert_eq!(write_number(&b.p25, 1), "130.0");
    assert_eq!(write_number(&b.p75, 1), "132.0");
    assert_eq!(write_number(&b.spread, 1), "2.0");
    // Exactly 2 apart is wide enough.
    h.record(2 * S, Some(40 * MS + 2 * MS / 3 + 1));
    let b = place_box(&h, 100 * MS, 10, 300);
    assert_eq!(write_number(&b.max, 1), "132.0");
    assert_eq!(b.max.offset, 10);
}

#[test]
fn distribution_without_hosts_is_empty() {
    let none: Vec<&Host> = Vec::new();
    assert_eq!(generate_candlestick_svg(&none).join(), "");
}

#[test]
fn distribution_of_the_report() {
    let h = host();
    let m = silent();
    let mut expected = String::from(
        "<svg xmlns=\"http://www.w3.org/2000/svg\" viewBox=\"0 0 900 160\" \
         style=\"width:100%;max-width:900px;background:#fff;border:1px solid #ccc;\
         border-radius:4px;display:block\">\n",
    );
    for (x, label) in
        [("160.0", "0"), ("302.0", "4"), ("444.0", "8"), ("586.0", "12"), ("728.0", "16"), ("870.0", "20")]
    {
        expected.push_str(&format!(
            "<line x1=\"{x}\" y1=\"30\" x2=\"{x}\" y2=\"130.0\" stroke=\"#eee\" stroke-width=\"1\"/>\n\
             <text x=\"{x}\" y=\"26.0\" text-anchor=\"middle\" font-size=\"10\" fill=\"#888\">{label}</text>\n"
        ));
    }
    expected.push_str(
        "<line x1=\"160\" y1=\"30\" x2=\"870.0\" y2=\"30\" stroke=\"#ccc\" stroke-width=\"1\"/>\n\
         <text x=\"515.0\" y=\"154.0\" text-anchor=\"middle\" font-size=\"11\" fill=\"#555\">RTT (ms)</text>\n\
         <text x=\"154.0\" y=\"59.0\" text-anchor=\"end\" font-size=\"11\" fill=\"#333\">a&amp;b</text>\n\
         <line x1=\"515.0\" y1=\"55.0\" x2=\"603.8\" y2=\"55.0\" stroke=\"#0072BD\" stroke-width=\"1.5\"/>\n\
         <line x1=\"515.0\" y1=\"45.0\" x2=\"515.0\" y2=\"65.0\" stroke=\"#0072BD\" stroke-width=\"1.5\"/>\n\
         <line x1=\"781.2\" y1=\"55.0\" x2=\"870.0\" y2=\"55.0\" stroke=\"#0072BD\" stroke-width=\"1.5\"/>\n\
         <line x1=\"870.0\" y1=\"45.0\" x2=\"870.0\" y2=\"65.0\" stroke=\"#0072BD\" stroke-width=\"1.5\"/>\n\
         <rect x=\"603.8\" y=\"41.0\" width=\"177.5\" height=\"28.0\" fill=\"#0072BD\" fill-opacity=\"0.25\" stroke=\"#0072BD\" stroke-width=\"1.5\"/>\n\
         <line x1=\"692.5\" y1=\"41.0\" x2=\"692.5\" y2=\"69.0\" stroke=\"#0072BD\" stroke-width=\"2.5\"/>\n\
         <circle cx=\"692.5\" cy=\"55.0\" r=\"4\" fill=\"none\" stroke=\"#0072BD\" stroke-width=\"2\"/>\n\
         <text x=\"874.0\" y=\"59.0\" font-size=\"10\" fill=\"#555\">min 10.0  avg 15.0  max 20.0 ms</text>\n\
         <rect x=\"160\" y=\"80.0\" width=\"710\" height=\"50\" fill=\"#f9f9f9\"/>\n\
         <text x=\"154.0\" y=\"109.0\" text-anchor=\"end\" font-size=\"11\" fill=\"#333\">mute (10.0.0.2)</text>\n\
         <text x=\"164.0\" y=\"109.0\" font-size=\"10\" fill=\"#aaa\">no data</text>\n\
         </svg>",
    );
    assert_eq!(generate_candlestick_svg(&vec![&h, &m]).join(), expected);
}

#[test]
fn a_ping_before_the_reset_stands_left_of_the_axis() {
    let mut h = Host::new(1, "x".to_string(), 1_000, 0);
    h.reset_at(10 * S);
    h.record(9 * S, None);
    assert!(generate_report_svg(&vec![&h]).join().contains("<text x=\"-54.2\" y=\"374.0\""));
}
