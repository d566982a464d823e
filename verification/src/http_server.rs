use vstd::prelude::*;
use vstd::string::StringExecFns;
use vstd::utf8::encode_utf8;
use crate::text::{chars_of, lossy_text, str_eq, string_from_utf8_lossy};

verus! {

/// What a character becomes in HTML text: the four characters with a
/// meaning of their own become entities.
pub open spec fn escaped_char(c: char) -> Seq<char> {
    if c == '&' {
        "&amp;"@
    } else if c == '<' {
        "&lt;"@
    } else if c == '>' {
        "&gt;"@
    } else if c == '"' {
        "&quot;"@
    } else {
        seq![c]
    }
}

/// A text with each character escaped for HTML.
pub open spec fn html_escaped(s: Seq<char>) -> Seq<char>
    decreases s.len(),
{
    if s.len() == 0 {
        Seq::empty()
    } else {
        html_escaped(s.drop_last()) + escaped_char(s.last())
    }
}

/// Escapes a text for HTML.
pub fn html_escape(s: &str) -> (r: String)
    ensures
        r@ == html_escaped(s@),
{
    let mut out = String::new();
    for c in it: s.chars()
        invariant
            it.seq() == s@,
            out@ == html_escaped(s@.take(it.index() as int)),
    {
        proof {
            let next = s@.take(it.index() + 1);
            assert(next.drop_last() =~= s@.take(it.index() as int));
            assert(next.last() == c);
        }
        if c == '&' {
            out.append("&amp;");
        } else if c == '<' {
            out.append("&lt;");
        } else if c == '>' {
            out.append("&gt;");
        } else if c == '"' {
            out.append("&quot;");
        } else {
            let ghost before = out@;
            out.push(c);
            assert(out@ =~= before + seq![c]);
        }
    }
    assert(s@.take(s@.len() as int) =~= s@);
    out
}

/// The media type served for a file name extension.
pub open spec fn content_type(extension: Option<Seq<char>>) -> Seq<char> {
    match extension {
        None => "application/octet-stream"@,
        Some(e) => if e == "html"@ || e == "htm"@ {
            "text/html"@
        } else if e == "css"@ {
            "text/css"@
        } else if e == "js"@ {
            "application/javascript"@
        } else if e == "json"@ {
            "application/json"@
        } else if e == "xml"@ {
            "application/xml"@
        } else if e == "txt"@ || e == "cfg"@ || e == "log"@ || e == "conf"@ || e == "ini"@ || e
            == "yaml"@ || e == "yml"@ || e == "toml"@ {
            "text/plain"@
        } else if e == "png"@ {
            "image/png"@
        } else if e == "jpg"@ || e == "jpeg"@ {
            "image/jpeg"@
        } else if e == "gif"@ {
            "image/gif"@
        } else if e == "svg"@ {
            "image/svg+xml"@
        } else if e == "ico"@ {
            "image/x-icon"@
        } else if e == "pdf"@ {
            "application/pdf"@
        } else if e == "zip"@ {
            "application/zip"@
        } else if e == "gz"@ || e == "tgz"@ {
            "application/gzip"@
        } else if e == "tar"@ {
            "application/x-tar"@
        } else {
            "application/octet-stream"@
        },
    }
}

/// The media type to serve a file as, by the extension of its name.
pub fn content_type_for(extension: Option<&str>) -> (r: &'static str)
    ensures
        r@ == content_type(
            match extension {
                Some(e) => Some(e@),
                None => None,
            },
        ),
{
    match extension {
        None => "application/octet-stream",
        Some(e) => {
            if str_eq(e, "html") || str_eq(e, "htm") {
                "text/html"
            } else if str_eq(e, "css") {
                "text/css"
            } else if str_eq(e, "js") {
                "application/javascript"
            } else if str_eq(e, "json") {
                "application/json"
            } else if str_eq(e, "xml") {
                "application/xml"
            } else if str_eq(e, "txt") || str_eq(e, "cfg") || str_eq(e, "log") || str_eq(e, "conf")
                || str_eq(e, "ini") || str_eq(e, "yaml") || str_eq(e, "yml") || str_eq(e, "toml") {
                "text/plain"
            } else if str_eq(e, "png") {
                "image/png"
            } else if str_eq(e, "jpg") || str_eq(e, "jpeg") {
                "image/jpeg"
            } else if str_eq(e, "gif") {
                "image/gif"
            } else if str_eq(e, "svg") {
                "image/svg+xml"
            } else if str_eq(e, "ico") {
                "image/x-icon"
            } else if str_eq(e, "pdf") {
                "application/pdf"
            } else if str_eq(e, "zip") {
                "application/zip"
            } else if str_eq(e, "gz") || str_eq(e, "tgz") {
                "application/gzip"
            } else if str_eq(e, "tar") {
                "application/x-tar"
            } else {
                "application/octet-stream"
            }
        },
    }
}

/// The value of a hexadecimal digit in ASCII.
pub open spec fn hex_value(b: u8) -> Option<u8> {
    if 48 <= b <= 57 {
        Some((b - 48) as u8)
    } else if 97 <= b <= 102 {
        Some((b - 87) as u8)
    } else if 65 <= b <= 70 {
        Some((b - 55) as u8)
    } else {
        None
    }
}

/// The byte that the two bytes after a `%` spell: two hexadecimal digits,
/// or `+` and one digit.
pub open spec fn hex_pair(a: u8, b: u8) -> Option<u8> {
    match hex_value(b) {
        Some(low) => match hex_value(a) {
            Some(high) => Some((16 * high + low) as u8),
            None => if a == 43 {
                Some(low)
            } else {
                None
            },
        },
        None => None,
    }
}

/// The bytes from place `i` on with each `%` escape replaced by its byte.
/// A `%` that is not followed by two bytes that spell a byte stays as it
/// is.
pub open spec fn percent_decoded_bytes(bytes: Seq<u8>, i: int) -> Seq<u8>
    decreases bytes.len() - i,
{
    if i < 0 || i >= bytes.len() {
        Seq::empty()
    } else if bytes[i] == 37 && i + 2 < bytes.len() && hex_pair(bytes[i + 1], bytes[i + 2]) is Some {
        seq![hex_pair(bytes[i + 1], bytes[i + 2])->0] + percent_decoded_bytes(bytes, i + 3)
    } else {
        seq![bytes[i]] + percent_decoded_bytes(bytes, i + 1)
    }
}

/// A text with its `%` escapes decoded; bytes that are then not UTF-8 are
/// replaced.
pub open spec fn percent_decoded(s: Seq<char>) -> Seq<char> {
    lossy_text(percent_decoded_bytes(encode_utf8(s), 0))
}

fn hex_digit(b: u8) -> (r: Option<u8>)
    ensures
        r == hex_value(b),
{
    if 48 <= b && b <= 57 {
        Some(b - 48)
    } else if 97 <= b && b <= 102 {
        Some(b - 87)
    } else if 65 <= b && b <= 70 {
        Some(b - 55)
    } else {
        None
    }
}

fn hex_byte(a: u8, b: u8) -> (r: Option<u8>)
    ensures
        r == hex_pair(a, b),
{
    match hex_digit(b) {
        Some(low) => match hex_digit(a) {
            Some(high) => Some(16 * high + low),
            None => if a == 43 {
                Some(low)
            } else {
                None
            },
        },
        None => None,
    }
}

/// Decodes the `%` escapes of a URL path.
pub fn percent_decode(s: &str) -> (r: String)
    ensures
        r@ == percent_decoded(s@),
{
    let mut result: Vec<u8> = Vec::new();
    let bytes = s.as_bytes();
    let mut i: usize = 0;
    assert(result@ + percent_decoded_bytes(bytes@, 0) =~= percent_decoded_bytes(bytes@, 0));
    while i < bytes.len()
        invariant
            i <= bytes@.len(),
            result@ + percent_decoded_bytes(bytes@, i as int) == percent_decoded_bytes(bytes@, 0),
        decreases bytes@.len() - i,
    {
        let ghost before = result@;
        if bytes[i] == 37 && bytes.len() - i > 2 {
            match hex_byte(bytes[i + 1], bytes[i + 2]) {
                Some(val) => {
                    result.push(val);
                    assert(result@ + percent_decoded_bytes(bytes@, i + 3) =~= before
                        + percent_decoded_bytes(bytes@, i as int));
                    i += 3;
                    continue ;
                },
                None => {},
            }
        }
        result.push(bytes[i]);
        assert(result@ + percent_decoded_bytes(bytes@, i + 1) =~= before + percent_decoded_bytes(
            bytes@,
            i as int,
        ));
        i += 1;
    }
    assert(result@ =~= percent_decoded_bytes(bytes@, 0));
    string_from_utf8_lossy(result.as_slice())
}

/// One entry of a directory, as the listing shows it.
#[derive(Debug, Clone, PartialEq, Eq)]
pub struct Listing {
    pub name: String,
    pub is_dir: bool,
    /// The size of a file as it is shown; empty where it is not known.
    pub size: String,
}

/// What a `Listing` says.
pub struct ListingModel {
    pub name: Seq<char>,
    pub is_dir: bool,
    pub size: Seq<char>,
}

impl View for Listing {
    type V = ListingModel;

    open spec fn view(&self) -> ListingModel {
        ListingModel { name: self.name@, is_dir: self.is_dir, size: self.size@ }
    }
}

/// What a list of `Listing`s says, in order.
pub open spec fn listing_models(entries: Seq<Listing>) -> Seq<ListingModel> {
    Seq::new(entries.len(), |i: int| entries[i]@)
}

/// A path without the separators at its end.
pub open spec fn trimmed(path: Seq<char>) -> Seq<char>
    decreases path.len(),
{
    if path.len() > 0 && path.last() == '/' {
        trimmed(path.drop_last())
    } else {
        path
    }
}

/// What stands before the last separator, if there is a separator.
pub open spec fn before_last_slash(path: Seq<char>) -> Option<Seq<char>>
    decreases path.len(),
{
    if path.len() == 0 {
        None
    } else if path.last() == '/' {
        Some(path.drop_last())
    } else {
        before_last_slash(path.drop_last())
    }
}

/// The path that the link to the parent directory leads to.
pub open spec fn parent_link(display_path: Seq<char>) -> Seq<char> {
    match before_last_slash(trimmed(display_path)) {
        Some(parent) => if parent.len() == 0 {
            "/"@
        } else {
            parent
        },
        None => "/"@,
    }
}

/// The top of the page, down to the head of the table.
pub open spec fn page_head(display_path: Seq<char>) -> Seq<char> {
    "<!DOCTYPE html><html><head><meta charset=\"utf-8\">"@ + "<title>Index of "@ + html_escaped(
        display_path,
    ) + "</title>"@ + "<style>"@
        + "body { font-family: monospace; max-width: 900px; margin: 40px auto; padding: 0 20px; }"@
        + "h1 { border-bottom: 1px solid #ccc; padding-bottom: 10px; }"@
        + "table { border-collapse: collapse; width: 100%; }"@
        + "td, th { text-align: left; padding: 4px 12px; }"@
        + "a { text-decoration: none; color: #0366d6; }"@
        + "a:hover { text-decoration: underline; }"@ + ".size { color: #666; }"@ + "</style>"@
        + "</head><body>"@ + "<h1>Index of "@ + html_escaped(display_path) + "</h1>"@
        + "<table><tr><th>Name</th><th>Size</th></tr>"@
}

/// The row that leads to the parent directory; the root has none.
pub open spec fn parent_row(display_path: Seq<char>) -> Seq<char> {
    if display_path == "/"@ {
        Seq::empty()
    } else {
        "<tr><td><a href=\""@ + parent_link(display_path) + "\">..</a></td><td></td></tr>"@
    }
}

/// The row of one entry: a link to it under its name, and its size. A
/// directory has `/` after its name and `-` for its size.
pub open spec fn entry_row(display_path: Seq<char>, e: ListingModel) -> Seq<char> {
    let href = trimmed(display_path) + "/"@ + e.name + if e.is_dir {
        "/"@
    } else {
        Seq::empty()
    };
    let shown = e.name + if e.is_dir {
        "/"@
    } else {
        Seq::empty()
    };
    "<tr><td><a href=\""@ + html_escaped(href) + "\">"@ + html_escaped(shown)
        + "</a></td><td class=\"size\">"@ + if e.is_dir {
        "-"@
    } else {
        e.size
    } + "</td></tr>"@
}

/// The rows of the entries, in order.
pub open spec fn entry_rows(display_path: Seq<char>, entries: Seq<ListingModel>) -> Seq<char>
    decreases entries.len(),
{
    if entries.len() == 0 {
        Seq::empty()
    } else {
        entry_rows(display_path, entries.drop_last()) + entry_row(display_path, entries.last())
    }
}

/// The page that lists a directory.
pub open spec fn directory_page(display_path: Seq<char>, entries: Seq<ListingModel>) -> Seq<char> {
    page_head(display_path) + parent_row(display_path) + entry_rows(display_path, entries)
        + "</table></body></html>"@
}

/// The text of the characters from `from` up to `to`.
fn string_of(chars: &Vec<char>, from: usize, to: usize) -> (r: String)
    requires
        from <= to <= chars@.len(),
    ensures
        r@ == chars@.subrange(from as int, to as int),
{
    let mut out = String::new();
    let mut i: usize = from;
    assert(chars@.subrange(from as int, from as int) =~= Seq::<char>::empty());
    while i < to
        invariant
            from <= i <= to <= chars@.len(),
            out@ == chars@.subrange(from as int, i as int),
        decreases to - i,
    {
        assert(chars@.subrange(from as int, i + 1) =~= chars@.subrange(from as int, i as int).push(
            chars@[i as int],
        ));
        out.push(chars[i]);
        i += 1;
    }
    out
}

/// The length of a path without the separators at its end.
fn trimmed_len(chars: &Vec<char>) -> (n: usize)
    ensures
        n <= chars@.len(),
        chars@.take(n as int) == trimmed(chars@),
{
    let mut n: usize = chars.len();
    assert(chars@.take(n as int) =~= chars@);
    while n > 0 && chars[n - 1] == '/'
        invariant
            n <= chars@.len(),
            trimmed(chars@.take(n as int)) == trimmed(chars@),
        decreases n,
    {
        assert(chars@.take(n as int).drop_last() =~= chars@.take(n - 1));
        n -= 1;
    }
    n
}

/// The path that the link to the parent directory leads to.
fn parent_of(chars: &Vec<char>) -> (r: String)
    ensures
        r@ == parent_link(chars@),
{
    let end = trimmed_len(chars);
    let ghost whole = chars@.take(end as int);
    let mut n: usize = end;
    assert(whole.take(n as int) =~= whole);
    while n > 0
        invariant
            n <= end <= chars@.len(),
            whole == chars@.take(end as int),
            whole == trimmed(chars@),
            before_last_slash(whole.take(n as int)) == before_last_slash(whole),
        decreases n,
    {
        assert(whole.take(n as int).drop_last() =~= whole.take(n - 1));
        assert(whole.take(n as int).last() == chars@[n - 1]);
        if chars[n - 1] == '/' {
            if n - 1 == 0 {
                return "/".to_owned();
            }
            assert(whole.take(n - 1) =~= chars@.subrange(0, n - 1));
            return string_of(chars, 0, n - 1);
        }
        n -= 1;
    }
    "/".to_owned()
}

/// Renders the page that lists a directory. `display_path` is the path as
/// the browser shows it; `entries` are listed in the order given.
pub fn render_directory(display_path: &str, entries: &Vec<Listing>) -> (r: String)
    ensures
        r@ == directory_page(display_path@, listing_models(entries@)),
{
    let chars = chars_of(display_path);
    let escaped_path = html_escape(display_path);
    let mut html = String::new();
    html.append("<!DOCTYPE html><html><head><meta charset=\"utf-8\">");
    html.append("<title>Index of ");
    html.append(escaped_path.as_str());
    html.append("</title>");
    html.append("<style>");
    html.append(
        "body { font-family: monospace; max-width: 900px; margin: 40px auto; padding: 0 20px; }",
    );
    html.append("h1 { border-bottom: 1px solid #ccc; padding-bottom: 10px; }");
    html.append("table { border-collapse: collapse; width: 100%; }");
    html.append("td, th { text-align: left; padding: 4px 12px; }");
    html.append("a { text-decoration: none; color: #0366d6; }");
    html.append("a:hover { text-decoration: underline; }");
    html.append(".size { color: #666; }");
    html.append("</style>");
    html.append("</head><body>");
    html.append("<h1>Index of ");
    html.append(escaped_path.as_str());
    html.append("</h1>");
    html.append("<table><tr><th>Name</th><th>Size</th></tr>");
    assert(html@ =~= page_head(display_path@));

    // Parent directory link.
    if !str_eq(display_path, "/") {
        let parent = parent_of(&chars);
        html.append("<tr><td><a href=\"");
        html.append(parent.as_str());
        html.append("\">..</a></td><td></td></tr>");
    }
    assert(html@ =~= page_head(display_path@) + parent_row(display_path@));

    let base = string_of(&chars, 0, trimmed_len(&chars));
    assert(base@ =~= trimmed(display_path@));
    let ghost top = html@;
    let ghost models = listing_models(entries@);
    let mut i: usize = 0;
    assert(models.take(0) =~= Seq::<ListingModel>::empty());
    assert(html@ =~= top + entry_rows(display_path@, models.take(0)));
    while i < entries.len()
        invariant
            i <= entries@.len(),
            models == listing_models(entries@),
            base@ == trimmed(display_path@),
            html@ == top + entry_rows(display_path@, models.take(i as int)),
        decreases entries@.len() - i,
    {
        let entry = &entries[i];
        let ghost before = html@;
        proof {
            let next = models.take(i + 1);
            assert(next.drop_last() =~= models.take(i as int));
            assert(next.last() == entry@);
        }
        let mut href = base.clone();
        href.append("/");
        href.append(entry.name.as_str());
        let mut shown = entry.name.clone();
        if entry.is_dir {
            href.append("/");
            shown.append("/");
        } else {
            assert(href@ =~= trimmed(display_path@) + "/"@ + entry.name@ + Seq::<char>::empty());
            assert(shown@ =~= entry.name@ + Seq::<char>::empty());
        }
        html.append("<tr><td><a href=\"");
        html.append(html_escape(href.as_str()).as_str());
        html.append("\">");
        html.append(html_escape(shown.as_str()).as_str());
        html.append("</a></td><td class=\"size\">");
        if entry.is_dir {
            html.append("-");
        } else {
            html.append(entry.size.as_str());
        }
        html.append("</td></tr>");
        assert(html@ =~= before + entry_row(display_path@, entry@));
        assert(html@ =~= top + (entry_rows(display_path@, models.take(i as int)) + entry_row(
            display_path@,
            entry@,
        )));
        i += 1;
    }
    assert(models.take(entries@.len() as int) =~= models);

    html.append("</table></body></html>");
    assert(html@ =~= directory_page(display_path@, models));
    html
}

/// Where one thing stands in a listing relative to another.
#[derive(Debug, Clone, Copy, PartialEq, Eq, Structural)]
pub enum Rank {
    Before,
    Same,
    After,
}

/// How two byte sequences compare, byte by byte from the front; where one
/// is the beginning of the other, the shorter comes first.
pub open spec fn bytes_rank(a: Seq<u8>, b: Seq<u8>) -> Rank
    decreases a.len(),
{
    if a.len() == 0 && b.len() == 0 {
        Rank::Same
    } else if a.len() == 0 {
        Rank::Before
    } else if b.len() == 0 {
        Rank::After
    } else if a[0] < b[0] {
        Rank::Before
    } else if a[0] > b[0] {
        Rank::After
    } else {
        bytes_rank(a.drop_first(), b.drop_first())
    }
}

/// The order of a listing: directories before files, and within each by
/// their sort keys as texts compare in UTF-8.
pub open spec fn listing_order(a_is_dir: bool, a_key: Seq<char>, b_is_dir: bool, b_key: Seq<char>) -> Rank {
    if a_is_dir && !b_is_dir {
        Rank::Before
    } else if !a_is_dir && b_is_dir {
        Rank::After
    } else {
        bytes_rank(encode_utf8(a_key), encode_utf8(b_key))
    }
}

/// Where one entry stands in a listing relative to another. The keys are
/// the names of the entries in the form by which they are sorted.
pub fn listing_rank(a_is_dir: bool, a_key: &str, b_is_dir: bool, b_key: &str) -> (r: Rank)
    ensures
        r == listing_order(a_is_dir, a_key@, b_is_dir, b_key@),
{
    if a_is_dir && !b_is_dir {
        return Rank::Before;
    }
    if !a_is_dir && b_is_dir {
        return Rank::After;
    }
    let x = a_key.as_bytes();
    let y = b_key.as_bytes();
    let mut i: usize = 0;
    assert(x@.skip(0) =~= x@);
    assert(y@.skip(0) =~= y@);
    while i < x.len() && i < y.len()
        invariant
            i <= x@.len(),
            i <= y@.len(),
            a_is_dir == b_is_dir,
            x@ == encode_utf8(a_key@),
            y@ == encode_utf8(b_key@),
            bytes_rank(x@.skip(i as int), y@.skip(i as int)) == bytes_rank(x@, y@),
        decreases x@.len() - i,
    {
        proof {
            assert(x@.skip(i as int).drop_first() =~= x@.skip(i + 1));
            assert(y@.skip(i as int).drop_first() =~= y@.skip(i + 1));
            assert(x@.skip(i as int)[0] == x@[i as int]);
            assert(y@.skip(i as int)[0] == y@[i as int]);
        }
        if x[i] < y[i] {
            return Rank::Before;
        }
        if x[i] > y[i] {
            return Rank::After;
        }
        i += 1;
    }
    if i < y.len() {
        Rank::Before
    } else if i < x.len() {
        Rank::After
    } else {
        Rank::Same
    }
}

} // verus!
