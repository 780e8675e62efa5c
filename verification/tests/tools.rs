//! Pages, searches, tables, pictures and keys.

use rustpilot::json::Json;
use rustpilot::tools::browser::{browser_state_output, AfterLoad, BrowserSession, BrowserStep};
use rustpilot::tools::computer::{
    bmp_stride, encode_bmp, plan_computer, snapshot_report, type_character, windows_key_code,
    ComputerStep, InputEvent,
};
use rustpilot::tools::csv::{parse_csv_line, table_from_contents, table_from_json, value_to_cell};
use rustpilot::tools::data::{
    analysis_report, analysis_request, chart_labels, chart_page, chart_request, chart_specification,
    chart_list, chart_stem, count_missing, escape_html, insight_text, may_list_files, numeric_column, preparation_report,
    render_svg_chart, visualization_sources, BarBox,
};
use rustpilot::tools::html::{
    absolute_url, html_attribute, html_links, html_select_options, html_text, html_title,
    percent_encode, remove_html_block,
};
use rustpilot::tools::png::{crc32, png_chart, png_chunk, store};
use rustpilot::tools::session::{result_url, search_target, session_key, waited};
use rustpilot::tools::websearch::{
    crawl_report, crawl_request, crawled_page, failed_page, late_page, search_candidates,
    search_engines, search_report, search_request, WebSearch,
};

fn text(value: &str) -> String {
    value.to_string()
}

fn texts(values: &[&str]) -> Vec<String> {
    values.iter().map(|value| value.to_string()).collect()
}

fn json(value: &str) -> Json {
    Json::parse(value).expect("the text should be JSON")
}

#[test]
fn html_tools_extract_text_and_resolve_links() {
    let html = "<html><script>ignore()</script><title>Page</title><body>Hello <a href='/next'>Next page</a></body></html>";
    assert_eq!(html_title(html), "Page");
    assert_eq!(html_text(html), "Page Hello Next page");
    assert_eq!(
        html_links(html, "https://example.test/start")[0].1,
        "https://example.test/next"
    );
}

#[test]
fn pages_are_read_piece_by_piece() {
    assert_eq!(remove_html_block("a<STYLE>x</style>b", "style"), "a b");
    assert_eq!(html_text("a &amp;&nbsp;b &#39;c&quot;"), "a & b 'c\"");
    assert_eq!(html_attribute("a href=\"/x\"", "href"), Some(text("/x")));
    assert_eq!(html_attribute("a", "href"), None);
    assert_eq!(absolute_url("https://x.test/a/b", "https://y.test"), "https://y.test");
    assert_eq!(absolute_url("https://x.test/a/b", "//y.test/c"), "https://y.test/c");
    assert_eq!(percent_encode("a b/ü"), "a%20b%2F%C3%BC");
    let options = html_select_options("<select><option value='1'>One</option></select>");
    assert_eq!(options.len(), 1);
}

#[test]
fn pages_are_cut_by_bytes() {
    assert_eq!(html_text("a<SCRIPT>x</Script>abc"), "a abc");
    // Here lower case takes a byte more, and the page is cut a byte too late.
    assert_eq!(html_text("\u{130}<script>x</script>abc"), "\u{130}");
    assert_eq!(html_title("\u{130}<title>abc</title>"), "bc");
}

#[test]
fn searches_ask_one_engine_after_the_other() {
    let request = search_request(&json("{\"query\":\"rust verus\",\"num_results\":2}"))
        .expect("there is a query");
    assert!(search_request(&json("{}")).is_err());
    let engines = search_engines("rust verus", 2);
    assert_eq!(engines.len(), 4);
    assert!(engines[1].1.contains("rust%20verus&count=2"));
    let mut search = WebSearch::new(&request);
    assert_eq!(search.next_engine(), Some(engines[0].clone()));
    search.skip_engine();
    assert_eq!(search.next_engine(), Some(engines[1].clone()));
    assert!(search.take_page(&engines[1].1, "<p>nothing</p>").is_empty());
    search.skip_engine();
    search.skip_engine();
    assert_eq!(search.next_engine(), None);
    assert!(search.no_results().contains("rust verus"));
}

#[test]
fn results_lead_away_from_the_engines() {
    let html = "<a href='https://a.test/1'>One</a><a href='https://www.bing.com/x'>Own</a><a href='https://a.test/2'> </a><a href='https://b.test'>Two</a>";
    let found = search_candidates(html, "https://www.bing.com/search", 1);
    assert_eq!(found, vec![(text("One"), text("https://a.test/1"))]);
    let report = json(&search_report("q", "bing", &found, &vec![Some(text("<b>x</b>"))]));
    assert_eq!(report.items("results").map(|r| r.len()), Some(1));
    assert_eq!(result_url(&report), Some(text("https://a.test/1")));
    assert_eq!(search_target(&report.to_text()), Some(text("https://a.test/1")));
    assert_eq!(search_target("not JSON"), None);
}

#[test]
fn crawls_report_every_page() {
    let request = crawl_request(&json("{\"urls\":[\"https://a.test\"],\"timeout\":5}"))
        .expect("there is a page");
    assert_eq!(request.urls, texts(&["https://a.test"]));
    assert!(crawl_request(&json("{}")).is_err());
    let pages = vec![
        crawled_page("https://a.test", 200, "<title>A</title><p>hello</p>", 0, false),
        failed_page("https://b.test", "refused"),
        late_page("https://c.test", 5),
    ];
    let report = crawl_report(pages);
    assert!(report.contains("hello") && report.contains("refused") && report.contains("c.test"));
}

#[test]
fn sessions_go_back_and_forth() {
    let mut session = BrowserSession::new();
    assert_eq!(
        session.step(&json("{\"action\":\"go_back\"}")),
        Err(text("Browser history has no previous page."))
    );
    assert_eq!(
        session.step(&json("{\"action\":\"refresh\"}")),
        Err(text("No browser page is open."))
    );
    for url in ["https://a.test", "https://b.test"] {
        let step = session
            .step(&json(&format!("{{\"action\":\"go_to_url\",\"url\":\"{url}\"}}")))
            .expect("a page can be opened");
        if let BrowserStep::Load { url, then } = step {
            session.arrive(then, &url, 200, &format!("<title>{url}</title>"));
        }
    }
    assert_eq!(session.history.len(), 2);
    assert_eq!(
        session.step(&json("{\"action\":\"back\"}")),
        Ok(BrowserStep::Load { url: text("https://a.test"), then: AfterLoad::Back })
    );
    session.arrive(AfterLoad::Back, "https://a.test", 200, "<title>A</title>");
    assert_eq!((session.current_url.as_str(), session.history_index), ("https://a.test", 0));
    assert!(matches!(
        session.step(&json("{\"action\":\"forward\"}")),
        Ok(BrowserStep::Load { .. })
    ));
    assert!(browser_state_output(&session, 200, true).contains("https://a.test"));
    assert_eq!(
        session.step(&json("{\"action\":\"dance\"}")),
        Err(text("Unsupported browser action: dance"))
    );
}

#[test]
fn sessions_know_their_page() {
    let mut session = BrowserSession::new();
    session.arrive(
        AfterLoad::Open,
        "https://a.test/",
        200,
        "<title>A</title><a href='/x'>Go</a><p>Find me</p>",
    );
    assert!(matches!(
        session.step(&json("{\"action\":\"click_element\",\"index\":0}")),
        Ok(BrowserStep::Load { url, .. }) if url == "https://a.test/x"
    ));
    assert!(matches!(
        session.step(&json("{\"action\":\"scroll_down\",\"scroll_amount\":2}")),
        Ok(BrowserStep::Show(_))
    ));
    assert_eq!(session.scroll_y, 1200);
    assert!(matches!(
        session.step(&json("{\"action\":\"web_search\",\"query\":\"x\"}")),
        Ok(BrowserStep::Search { query }) if query == "x"
    ));
    assert!(waited(3).contains('3'));
    assert_eq!(session_key("t", &json("{}")).0, session_key("t", &json("{}")).0);
    assert!(session.peek("https://z.test", 200, "<title>Z</title>").contains("Z"));
    assert_eq!(session.current_url, "https://a.test/");
    assert!(session.screenshot("s", "/p.png").contains("/p.png"));
}

#[test]
fn quoted_commas_do_not_split_cells() {
    let table = table_from_contents("sample.csv", "name,value\n\"A, B\",2\n")
        .expect("CSV should parse");
    assert_eq!(table.headers, vec!["name", "value"]);
    assert_eq!(table.rows[0][0], "A, B");
    assert_eq!(parse_csv_line("\"a\"\"b\",c"), texts(&["a\"b", "c"]));
    assert_eq!(value_to_cell(&Json::number(7)), "7");
    assert_eq!(value_to_cell(&Json::Null), "");
}

#[test]
fn objects_become_rows() {
    let table = table_from_json(&json("[{\"a\":1,\"b\":\"x\"},{\"a\":2}]"));
    assert_eq!(table.headers, texts(&["a", "b"]));
    assert_eq!(table.rows, vec![texts(&["1", "x"]), texts(&["2", ""])]);
    let read = table_from_contents("x.json", "[{\"a\":1}]").expect("JSON should parse");
    assert_eq!(read.rows.len(), 1);
    assert!(table_from_contents("x.json", "{").is_err());
    assert!(table_from_contents("x.csv", "").is_err());
}

#[test]
fn tables_are_described() {
    let table = table_from_contents("x.csv", "name,n\na,1\nb,\n").expect("CSV should parse");
    assert_eq!(count_missing(&table.rows, 1), 1);
    assert_eq!(numeric_column(&vec![false, true]), 1);
    assert_eq!(chart_labels(&table.rows), texts(&["a", "b"]));
    let report = analysis_report(&table, &vec![(0, Json::Null), (1, Json::Null)], 1);
    assert_eq!(Json::parse(&report).map(|r| r.get("columns").is_some()), Ok(true));
    assert!(analysis_request(&json("{}")).is_err());
}

#[test]
fn charts_escape_their_texts() {
    assert_eq!(escape_html("<a & \"b\">"), "&lt;a &amp; &quot;b&quot;&gt;");
    let bar = BarBox {
        x: text("1"),
        y: text("2"),
        width: text("3"),
        height: text("4"),
        middle: text("5"),
    };
    let svg = render_svg_chart("T<", &texts(&["l&"]), &vec![bar]);
    assert!(svg.starts_with("<svg") && svg.contains("T&lt;") && svg.contains("l&amp;"));
    let table = table_from_contents("x.csv", "n\n<\n").expect("CSV should parse");
    assert!(chart_page("T", &table, &svg).contains("&lt;"));
    assert!(insight_text("T", 2, 2, "1.50").contains("1.50"));
    assert_eq!(chart_stem("My chart", "id1"), chart_stem("My chart", "id1"));
}

#[test]
fn charts_are_asked_for() {
    assert!(chart_request(&json("{}")).is_err());
    assert!(may_list_files("d.JSON"));
    assert!(!may_list_files("d.csv"));
    assert_eq!(chart_list("d.JSON", &Some("[1]".to_string())), Some(json("[1]")));
    assert_eq!(chart_list("d.csv", &Some("[1]".to_string())), None);
    assert_eq!(chart_list("d.json", &Some("[1".to_string())), None);
    assert_eq!(chart_list("d.json", &None), None);
    let request = chart_request(&json("{\"json_path\":\"d.json\"}")).expect("there is a path");
    assert_eq!(request.input_path, "d.json");
    assert_eq!(visualization_sources(&None, &request).len(), 1);
    assert!(preparation_report(chart_specification(&json("{}"))).contains('{'));
}

#[test]
fn pictures_of_charts_begin_as_pictures_do() {
    let bytes = png_chart(&[100, 300, 200]);
    assert_eq!(&bytes[..8], b"\x89PNG\r\n\x1a\n");
    assert_eq!(&bytes[bytes.len() - 8..bytes.len() - 4], b"IEND");
    assert_eq!(crc32(b"IEND"), 0xae42_6082);
    assert_eq!(png_chunk(b"IEND", b"").len(), 12);
    assert_eq!(store(b"ab")[..3], [0x78, 0x01, 0x01]);
}

#[test]
fn pixels_stand_behind_the_head() {
    assert_eq!(bmp_stride(1), 4);
    let bmp = encode_bmp(1, 1, &[1, 2, 3, 0]);
    assert_eq!(&bmp[..2], b"BM");
    assert_eq!(&bmp[bmp.len() - 4..], &[1, 2, 3, 0]);
    let report = snapshot_report(&json("{}"), 1, 1, Some((3, 4)), "/s.bmp", &bmp);
    assert!(report.contains("/s.bmp"));
}

#[test]
fn actions_become_events() {
    assert_eq!(windows_key_code("Enter"), Some(13));
    assert_eq!(windows_key_code("nothing"), None);
    assert_eq!(
        plan_computer(&json("{}"), true),
        Err(text("rust_computer_use requires action"))
    );
    assert!(matches!(
        plan_computer(&json("{\"action\":\"move_to\",\"x\":3,\"y\":4}"), true),
        Ok(ComputerStep::Move { x: 3, y: 4, .. })
    ));
    assert_eq!(
        plan_computer(&json("{\"action\":\"press\",\"key\":\"nothing\"}"), true),
        Err(text("Unsupported key: nothing"))
    );
    assert!(matches!(
        plan_computer(&json("{\"action\":\"type\",\"text\":\"ab\"}"), true),
        Ok(ComputerStep::Type { .. })
    ));
    assert!(matches!(
        plan_computer(&json("{\"action\":\"press\",\"key\":\"enter\"}"), true),
        Ok(ComputerStep::Send { events, .. })
            if events == vec![
                InputEvent::Key { code: 13, up: false },
                InputEvent::Key { code: 13, up: true },
            ]
    ));
    assert!(!type_character(65).is_empty());
}
