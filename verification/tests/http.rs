use tftp_rs::http_server::{
    content_type_for, html_escape, listing_rank, percent_decode, Rank,
};

#[test]
fn html_escape_replaces_the_four_characters() {
    assert_eq!(html_escape(""), "");
    assert_eq!(html_escape("plain text"), "plain text");
    assert_eq!(html_escape("a&b"), "a&amp;b");
    assert_eq!(html_escape("<script>"), "&lt;script&gt;");
    assert_eq!(html_escape("say \"hi\""), "say &quot;hi&quot;");
    assert_eq!(html_escape("&lt;"), "&amp;lt;");
    assert_eq!(html_escape("'single' stays"), "'single' stays");
    assert_eq!(html_escape("\u{e9}<\u{4e2d}>"), "\u{e9}&lt;\u{4e2d}&gt;");
}

#[test]
fn html_escape_is_the_chain_of_replacements() {
    for s in ["", "&", "&&<<>>\"\"", "a<b>c&d\"e", "&amp;&lt;&gt;&quot;", "x/y/z.txt"] {
        let expected = s
            .replace('&', "&amp;")
            .replace('<', "&lt;")
            .replace('>', "&gt;")
            .replace('"', "&quot;");
        assert_eq!(html_escape(s), expected);
    }
}

#[test]
fn content_type_by_extension() {
    assert_eq!(content_type_for(Some("html")), "text/html");
    assert_eq!(content_type_for(Some("htm")), "text/html");
    assert_eq!(content_type_for(Some("css")), "text/css");
    assert_eq!(content_type_for(Some("js")), "application/javascript");
    assert_eq!(content_type_for(Some("json")), "application/json");
    assert_eq!(content_type_for(Some("xml")), "application/xml");
    for ext in ["txt", "cfg", "log", "conf", "ini", "yaml", "yml", "toml"] {
        assert_eq!(content_type_for(Some(ext)), "text/plain");
    }
    assert_eq!(content_type_for(Some("png")), "image/png");
    assert_eq!(content_type_for(Some("jpg")), "image/jpeg");
    assert_eq!(content_type_for(Some("jpeg")), "image/jpeg");
    assert_eq!(content_type_for(Some("gif")), "image/gif");
    assert_eq!(content_type_for(Some("svg")), "image/svg+xml");
    assert_eq!(content_type_for(Some("ico")), "image/x-icon");
    assert_eq!(content_type_for(Some("pdf")), "application/pdf");
    assert_eq!(content_type_for(Some("zip")), "application/zip");
    assert_eq!(content_type_for(Some("gz")), "application/gzip");
    assert_eq!(content_type_for(Some("tgz")), "application/gzip");
    assert_eq!(content_type_for(Some("tar")), "application/x-tar");
    for ext in ["bin", "img", "iso", "", "HTML", "unknown"] {
        assert_eq!(content_type_for(Some(ext)), "application/octet-stream");
    }
    assert_eq!(content_type_for(None), "application/octet-stream");
}

#[test]
fn percent_decode_plain_and_escaped() {
    assert_eq!(percent_decode(""), "");
    assert_eq!(percent_decode("/a/b.txt"), "/a/b.txt");
    assert_eq!(percent_decode("/a%20b/c"), "/a b/c");
    assert_eq!(percent_decode("%41%42%43x"), "ABCx");
    assert_eq!(percent_decode("%2Fetc%2fpasswd/"), "/etc/passwd/");
    assert_eq!(percent_decode("%C3%A9t%c3%a9!"), "\u{e9}t\u{e9}!");
}

#[test]
fn percent_decode_leaves_what_is_no_escape() {
    assert_eq!(percent_decode("100%"), "100%");
    assert_eq!(percent_decode("%zz/"), "%zz/");
    assert_eq!(percent_decode("%4"), "%4");
    assert_eq!(percent_decode("%%41/"), "%A/");
    assert_eq!(percent_decode("%4g%41/"), "%4gA/");
}

#[test]
fn percent_decode_at_the_end_of_the_text() {
    assert_eq!(percent_decode("/x%41"), "/xA");
    assert_eq!(percent_decode("%20"), " ");
    assert_eq!(percent_decode("%20/"), " /");
    // An escape that is cut short stays as it is.
    assert_eq!(percent_decode("/x%4"), "/x%4");
    assert_eq!(percent_decode("/x%"), "/x%");
}

#[test]
fn percent_decode_takes_a_plus_for_the_first_digit() {
    assert_eq!(percent_decode("%+9/"), "\t/");
    assert_eq!(percent_decode("%-9/"), "%-9/");
    assert_eq!(percent_decode("%9+/"), "%9+/");
}

#[test]
fn percent_decode_replaces_what_is_not_utf8() {
    assert_eq!(percent_decode("a%FFb/"), "a\u{fffd}b/");
    assert_eq!(percent_decode("%C3x/"), "\u{fffd}x/");
}

fn listing(name: &str, is_dir: bool, size: &str) -> tftp_rs::http_server::Listing {
    tftp_rs::http_server::Listing { name: name.to_string(), is_dir, size: size.to_string() }
}

const PAGE_STYLE: &str = "<style>body { font-family: monospace; max-width: 900px; margin: 40px auto; padding: 0 20px; }h1 { border-bottom: 1px solid #ccc; padding-bottom: 10px; }table { border-collapse: collapse; width: 100%; }td, th { text-align: left; padding: 4px 12px; }a { text-decoration: none; color: #0366d6; }a:hover { text-decoration: underline; }.size { color: #666; }</style>";

fn page(path: &str, rows: &str) -> String {
    format!(
        "<!DOCTYPE html><html><head><meta charset=\"utf-8\"><title>Index of {path}</title>{PAGE_STYLE}</head><body><h1>Index of {path}</h1><table><tr><th>Name</th><th>Size</th></tr>{rows}</table></body></html>"
    )
}

#[test]
fn directory_page_of_the_empty_root() {
    assert_eq!(tftp_rs::http_server::render_directory("/", &vec![]), page("/", ""));
}

#[test]
fn directory_page_lists_entries_in_order() {
    let entries = vec![listing("configs", true, ""), listing("a.txt", false, "12 B")];
    let rows = "<tr><td><a href=\"/configs/\">configs/</a></td><td class=\"size\">-</td></tr>\
                <tr><td><a href=\"/a.txt\">a.txt</a></td><td class=\"size\">12 B</td></tr>";
    assert_eq!(tftp_rs::http_server::render_directory("/", &entries), page("/", rows));
}

#[test]
fn directory_page_links_to_the_parent() {
    let entries = vec![listing("sw1.cfg", false, "1.5 KB")];
    let rows = "<tr><td><a href=\"/configs\">..</a></td><td></td></tr>\
                <tr><td><a href=\"/configs/switches/sw1.cfg\">sw1.cfg</a></td><td class=\"size\">1.5 KB</td></tr>";
    assert_eq!(
        tftp_rs::http_server::render_directory("/configs/switches/", &entries),
        page("/configs/switches/", rows)
    );
    let top = "<tr><td><a href=\"/\">..</a></td><td></td></tr>";
    assert_eq!(tftp_rs::http_server::render_directory("/configs", &vec![]), page("/configs", top));
    assert_eq!(tftp_rs::http_server::render_directory("/configs//", &vec![]), page("/configs//", top));
    assert_eq!(tftp_rs::http_server::render_directory("plain", &vec![]), page("plain", top));
    assert_eq!(tftp_rs::http_server::render_directory("//", &vec![]), page("//", top));
}

#[test]
fn directory_page_escapes_names() {
    let entries = vec![listing("a&b <c>.txt", false, ""), listing("q\"d", true, "9 B")];
    let rows = "<tr><td><a href=\"/x&amp;y\">..</a></td><td></td></tr>\
                <tr><td><a href=\"/x&amp;y/z/a&amp;b &lt;c&gt;.txt\">a&amp;b &lt;c&gt;.txt</a></td><td class=\"size\"></td></tr>\
                <tr><td><a href=\"/x&amp;y/z/q&quot;d/\">q&quot;d/</a></td><td class=\"size\">-</td></tr>";
    // The link to the parent is written as it is; everything else is escaped.
    let rows = rows.replacen("/x&amp;y\">..", "/x&y\">..", 1);
    assert_eq!(
        tftp_rs::http_server::render_directory("/x&y/z", &entries),
        page("/x&amp;y/z", &rows)
    );
}

#[test]
fn listing_puts_directories_first() {
    use_rank(true, "zzz", false, "aaa", Rank::Before);
    use_rank(false, "aaa", true, "zzz", Rank::After);
    use_rank(true, "b", true, "a", Rank::After);
    use_rank(false, "a", false, "b", Rank::Before);
}

#[test]
fn listing_orders_names_by_their_bytes() {
    use_rank(false, "", false, "", Rank::Same);
    use_rank(false, "", false, "a", Rank::Before);
    use_rank(false, "a", false, "", Rank::After);
    use_rank(true, "same", true, "same", Rank::Same);
    use_rank(false, "abc", false, "abd", Rank::Before);
    use_rank(false, "abc", false, "ab", Rank::After);
    use_rank(false, "ab", false, "abc", Rank::Before);
    use_rank(false, "Z", false, "a", Rank::Before);
    use_rank(false, "z", false, "\u{e9}", Rank::Before);
    use_rank(false, "\u{e9}", false, "\u{4e2d}", Rank::Before);
}

#[test]
fn listing_order_is_that_of_sorted_texts() {
    let names = ["b", "a", "", "ab", "B", "a b", "\u{e9}", "abc", "a"];
    for x in names {
        for y in names {
            let expected = match x.cmp(y) {
                std::cmp::Ordering::Less => Rank::Before,
                std::cmp::Ordering::Equal => Rank::Same,
                std::cmp::Ordering::Greater => Rank::After,
            };
            use_rank(false, x, false, y, expected);
            use_rank(true, x, true, y, expected);
        }
    }
}

fn use_rank(a_is_dir: bool, a: &str, b_is_dir: bool, b: &str, expected: Rank) {
    assert_eq!(listing_rank(a_is_dir, a, b_is_dir, b), expected);
}
