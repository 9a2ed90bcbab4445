use lokipool::proxy_list::{parse_proxy_list, render_proxy_list};

fn strings(v: &[&str]) -> Vec<String> {
    v.iter().map(|s| s.to_string()).collect()
}

#[test]
fn parse_dedups_in_file_order() {
    assert_eq!(parse_proxy_list("X\nY\nZ\nY"), strings(&["X", "Y", "Z"]));
}

#[test]
fn parse_trims_and_drops_blank_lines() {
    let text = "  1.2.3.4:1080 \r\n\n\t\n5.6.7.8:9050\r\n   \n";
    assert_eq!(parse_proxy_list(text), strings(&["1.2.3.4:1080", "5.6.7.8:9050"]));
}

#[test]
fn parse_trims_unicode_white_space() {
    let text = "\u{3000}a:1\u{a0}\n\u{2003}b:2";
    assert_eq!(parse_proxy_list(text), strings(&["a:1", "b:2"]));
}

#[test]
fn parse_empty_and_blank_texts() {
    assert!(parse_proxy_list("").is_empty());
    assert!(parse_proxy_list("\n \n\t\r\n").is_empty());
}

#[test]
fn parse_keeps_inner_spaces() {
    assert_eq!(parse_proxy_list(" a b \n"), strings(&["a b"]));
}

#[test]
fn render_joins_without_final_line_feed() {
    assert_eq!(render_proxy_list(&strings(&["Z", "X"])), "Z\nX");
    assert_eq!(render_proxy_list(&strings(&["only"])), "only");
    assert_eq!(render_proxy_list(&Vec::new()), "");
}

#[test]
fn rendered_list_reads_back() {
    let list = strings(&["10.0.0.1:1080", "example.org:9050", "10.0.0.2:1081"]);
    assert_eq!(parse_proxy_list(&render_proxy_list(&list)), list);
}
