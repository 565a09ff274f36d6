//! The HTTP server's answers: the web client's files, the list of apps, and the state of health.

use crate::decimal::{decimal, push_decimal};
use crate::text::{
    chars_of, contains_text, law_leading_char_trimmed, law_occurs, law_split_joins,
    lemma_split_whole, replace_char, replace_char_in, same_text, split, split_text, starts_with,
    string_of, texts, trim_start_char, trim_start_char_of,
};
use vstd::prelude::*;
use vstd::slice::slice_subrange;
use vstd::string::*;

verus! {

// ---------------------------------------------------------------------------
// Routes
// ---------------------------------------------------------------------------

/// What a request asks for.
#[derive(Debug)]
pub enum Route {
    /// The list of apps that can be launched.
    LaunchApps,
    /// Whether the pipeline runs.
    Health,
    /// A file of the web client, by its path in the client's directory.
    File { path: String },
}

/// What a [`Route`] says.
pub ghost enum RouteView {
    LaunchApps,
    Health,
    File { path: Seq<char> },
}

impl View for Route {
    type V = RouteView;

    open spec fn view(&self) -> RouteView {
        match *self {
            Route::LaunchApps => RouteView::LaunchApps,
            Route::Health => RouteView::Health,
            Route::File { path } => RouteView::File { path: path@ },
        }
    }
}

/// What the request for a path asks for.
pub open spec fn routed(path: Seq<char>) -> RouteView {
    if path == "/api/launch-apps"@ {
        RouteView::LaunchApps
    } else if path == "/health"@ {
        RouteView::Health
    } else if path == "/"@ || path.len() == 0 {
        RouteView::File { path: "index.html"@ }
    } else {
        RouteView::File { path: trim_start_char(path, '/') }
    }
}

/// What the request for a path asks for.
pub fn route(path: &str) -> (route: Route)
    ensures
        route@ == routed(path@),
{
    if same_text(path, "/api/launch-apps") {
        Route::LaunchApps
    } else if same_text(path, "/health") {
        Route::Health
    } else if same_text(path, "/") || path.unicode_len() == 0 {
        Route::File { path: "index.html".to_owned() }
    } else {
        Route::File { path: trim_start_char_of(path, '/') }
    }
}

// ---------------------------------------------------------------------------
// File types
// ---------------------------------------------------------------------------

/// The last component of a path that names something, given the path's pieces: empty pieces and
/// dots name nothing.
pub open spec fn last_name(pieces: Seq<Seq<char>>) -> Option<Seq<char>>
    decreases pieces.len(),
{
    if pieces.len() == 0 {
        None
    } else if pieces.last().len() == 0 || pieces.last() == "."@ {
        last_name(pieces.drop_last())
    } else {
        Some(pieces.last())
    }
}

/// The file that a path leads to; none if it leads up.
pub open spec fn file_name(path: Seq<char>) -> Option<Seq<char>> {
    match last_name(split(path, '/')) {
        Some(name) => if name == ".."@ {
            None
        } else {
            Some(name)
        },
        None => None,
    }
}

/// Where the last dot of a name stands; `None` if there is none.
pub open spec fn last_dot(name: Seq<char>) -> Option<int>
    decreases name.len(),
{
    if name.len() == 0 {
        None
    } else if name.last() == '.' {
        Some(name.len() - 1)
    } else {
        last_dot(name.drop_last())
    }
}

/// The extension of a file: what follows the last dot of its name, unless that dot begins it.
pub open spec fn extension(path: Seq<char>) -> Option<Seq<char>> {
    match file_name(path) {
        Some(name) => match last_dot(name) {
            Some(at) => if at == 0 {
                None
            } else {
                Some(name.skip(at + 1))
            },
            None => None,
        },
        None => None,
    }
}

/// The media type of a file, by its extension.
pub open spec fn media_type(path: Seq<char>) -> Seq<char> {
    match extension(path) {
        Some(ext) => if ext == "html"@ {
            "text/html; charset=utf-8"@
        } else if ext == "js"@ {
            "application/javascript; charset=utf-8"@
        } else if ext == "css"@ {
            "text/css; charset=utf-8"@
        } else if ext == "json"@ {
            "application/json"@
        } else if ext == "wasm"@ {
            "application/wasm"@
        } else if ext == "png"@ {
            "image/png"@
        } else if ext == "svg"@ {
            "image/svg+xml"@
        } else {
            "application/octet-stream"@
        },
        None => "application/octet-stream"@,
    }
}

/// The name of the file that a path leads to.
fn find_file_name(path: &str) -> (name: Option<String>)
    ensures
        match name {
            Some(n) => file_name(path@) == Some(n@),
            None => file_name(path@) is None,
        },
{
    let pieces = split_text(path, '/');
    let ghost views = texts(pieces@);
    let mut n: usize = pieces.len();
    proof {
        assert(views.take(n as int) =~= views);
    }
    while n > 0
        invariant
            n <= pieces@.len(),
            views == texts(pieces@),
            views == split(path@, '/'),
            last_name(views) == last_name(views.take(n as int)),
        decreases n,
    {
        let piece = pieces[n - 1].as_str();
        proof {
            assert(views.take(n as int).last() == pieces@[n - 1]@);
            assert(views.take(n as int).drop_last() =~= views.take(n - 1));
        }
        if piece.unicode_len() > 0 && !same_text(piece, ".") {
            if same_text(piece, "..") {
                return None;
            }
            return Some(pieces[n - 1].clone());
        }
        n = n - 1;
    }
    None
}

/// The extension of the file that a path leads to.
fn find_extension(path: &str) -> (found: Option<String>)
    ensures
        match found {
            Some(e) => extension(path@) == Some(e@),
            None => extension(path@) is None,
        },
{
    match find_file_name(path) {
        Some(name) => {
            let chars = chars_of(name.as_str());
            let mut n: usize = chars.len();
            proof {
                assert(chars@.take(n as int) =~= chars@);
            }
            while n > 0
                invariant
                    n <= chars@.len(),
                    file_name(path@) == Some(chars@),
                    last_dot(chars@) == last_dot(chars@.take(n as int)),
                decreases n,
            {
                proof {
                    assert(chars@.take(n as int).last() == chars@[n - 1]);
                    assert(chars@.take(n as int).drop_last() =~= chars@.take(n - 1));
                }
                if chars[n - 1] == '.' {
                    if n == 1 {
                        return None;
                    }
                    let ext = slice_subrange(chars.as_slice(), n, chars.len());
                    proof {
                        assert(ext@ =~= chars@.skip(n as int));
                    }
                    return Some(string_of(ext));
                }
                n = n - 1;
            }
            None
        },
        None => None,
    }
}

/// The media type of a file.
pub fn content_type(path: &str) -> (media: &'static str)
    ensures
        media@ == media_type(path@),
{
    match find_extension(path) {
        Some(ext) => {
            let ext = ext.as_str();
            if same_text(ext, "html") {
                "text/html; charset=utf-8"
            } else if same_text(ext, "js") {
                "application/javascript; charset=utf-8"
            } else if same_text(ext, "css") {
                "text/css; charset=utf-8"
            } else if same_text(ext, "json") {
                "application/json"
            } else if same_text(ext, "wasm") {
                "application/wasm"
            } else if same_text(ext, "png") {
                "image/png"
            } else if same_text(ext, "svg") {
                "image/svg+xml"
            } else {
                "application/octet-stream"
            }
        },
        None => "application/octet-stream",
    }
}

// ---------------------------------------------------------------------------
// Responses
// ---------------------------------------------------------------------------

/// An HTTP response.
#[derive(Debug)]
pub struct Response {
    pub status: u16,
    pub content_type: Option<String>,
    /// Whether pages from anywhere may read the response.
    pub allow_any_origin: bool,
    pub body: Vec<u8>,
}

/// The body that tells of health.
pub open spec fn health_text(running: bool) -> Seq<char> {
    if running {
        "{\"status\":\"ready\"}"@
    } else {
        "{\"status\":\"starting\"}"@
    }
}

/// The body that tells of health.
pub fn health_response_body(is_running: bool) -> (body: String)
    ensures
        body@ == health_text(is_running),
{
    if is_running {
        "{\"status\":\"ready\"}".to_owned()
    } else {
        "{\"status\":\"starting\"}".to_owned()
    }
}

/// The bytes of a text.
fn body_of(text: &str) -> (body: Vec<u8>)
    ensures
        body@ == vstd::utf8::encode_utf8(text@),
{
    let mut body: Vec<u8> = Vec::new();
    crate::wire::push_bytes(&mut body, text.as_bytes());
    proof {
        assert(body@ =~= vstd::utf8::encode_utf8(text@));
    }
    body
}

/// Whether a response is one with this JSON text, which pages from anywhere may read.
pub open spec fn is_json_response(response: Response, json: Seq<char>) -> bool {
    &&& response.status == 200
    &&& response.content_type matches Some(media) && media@ == "application/json"@
    &&& response.allow_any_origin
    &&& response.body@ == vstd::utf8::encode_utf8(json)
}

/// A response with a JSON text.
pub fn json_response(json: &str) -> (response: Response)
    ensures
        is_json_response(response, json@),
{
    Response {
        status: 200,
        content_type: Some("application/json".to_owned()),
        allow_any_origin: true,
        body: body_of(json),
    }
}

/// The response to a request that is answered without a file; `None` if it asks for one.
pub fn api_response(route: &Route, is_running: bool, launch_apps_json: &str) -> (response: Option<
    Response,
>)
    ensures
        match route@ {
            RouteView::LaunchApps => response matches Some(r) && is_json_response(
                r,
                launch_apps_json@,
            ),
            RouteView::Health => response matches Some(r) && is_json_response(
                r,
                health_text(is_running),
            ),
            RouteView::File { .. } => response is None,
        },
{
    match route {
        Route::LaunchApps => Some(json_response(launch_apps_json)),
        Route::Health => {
            let body = health_response_body(is_running);
            Some(json_response(body.as_str()))
        },
        Route::File { .. } => None,
    }
}

/// The response to a request for a file, given what the file holds, if it could be read.
pub fn file_response(path: &str, contents: Option<Vec<u8>>) -> (response: Response)
    ensures
        match contents {
            Some(bytes) => {
                &&& response.status == 200
                &&& response.content_type matches Some(media) && media@ == media_type(path@)
                &&& response.allow_any_origin
                &&& response.body@ == bytes@
            },
            None => {
                &&& response.status == 404
                &&& response.content_type is None
                &&& !response.allow_any_origin
                &&& response.body@ == vstd::utf8::encode_utf8("Not Found"@)
            },
        },
{
    match contents {
        Some(bytes) => Response {
            status: 200,
            content_type: Some(content_type(path).to_owned()),
            allow_any_origin: true,
            body: bytes,
        },
        None => Response {
            status: 404,
            content_type: None,
            allow_any_origin: false,
            body: body_of("Not Found"),
        },
    }
}

// ---------------------------------------------------------------------------
// The list of apps
// ---------------------------------------------------------------------------

/// A text as it stands inside a JSON string: backslashes and quotes are escaped.
pub open spec fn escaped(text: Seq<char>) -> Seq<char> {
    replace_char(replace_char(text, '\\', "\\\\"@), '"', "\\\""@)
}

/// A text as a JSON string.
pub open spec fn quoted(text: Seq<char>) -> Seq<char> {
    "\""@ + escaped(text) + "\""@
}

/// Texts as JSON strings, separated by commas.
pub open spec fn quoted_list(list: Seq<Seq<char>>) -> Seq<char>
    decreases list.len(),
{
    if list.len() == 0 {
        seq![]
    } else if list.len() == 1 {
        quoted(list[0])
    } else {
        quoted_list(list.drop_last()) + ","@ + quoted(list.last())
    }
}

/// Texts as a JSON list of strings.
pub open spec fn json_list(list: Seq<Seq<char>>) -> Seq<char> {
    "["@ + quoted_list(list) + "]"@
}

/// Writes a text as a JSON string.
fn quote(text: &str) -> (json: String)
    ensures
        json@ == quoted(text@),
{
    let backslashes = replace_char_in(text, '\\', "\\\\");
    let quotes = replace_char_in(backslashes.as_str(), '"', "\\\"");
    let mut json = "\"".to_owned();
    json.append(quotes.as_str());
    json.append("\"");
    json
}

/// Writes the apps as a JSON list.
pub fn launch_apps_json(apps: &Vec<String>) -> (json: String)
    ensures
        json@ == json_list(texts(apps@)),
{
    let ghost views = texts(apps@);
    let mut json = "[".to_owned();
    let mut i: usize = 0;
    proof {
        assert(views.take(0) =~= Seq::<Seq<char>>::empty());
        assert(json@ =~= "["@ + quoted_list(views.take(0)));
    }
    while i < apps.len()
        invariant
            i <= apps@.len(),
            views == texts(apps@),
            json@ == "["@ + quoted_list(views.take(i as int)),
        decreases apps.len() - i,
    {
        let ghost before = json@;
        let ghost next = views.take(i + 1);
        let item = quote(apps[i].as_str());
        proof {
            assert(next.drop_last() =~= views.take(i as int));
            assert(next.last() == apps@[i as int]@);
        }
        if i > 0 {
            json.append(",");
        }
        json.append(item.as_str());
        proof {
            if i == 0 {
                assert(before =~= "["@);
                assert(json@ =~= "["@ + quoted_list(next));
            } else {
                assert(json@ =~= "["@ + quoted_list(next));
            }
        }
        i = i + 1;
    }
    proof {
        assert(views.take(i as int) =~= views);
    }
    json.append("]");
    json
}

// ---------------------------------------------------------------------------
// The client's address
// ---------------------------------------------------------------------------

/// The address at which the web client connects by itself, given the fingerprint of the server's
/// certificate; without one, the address of the client alone.
pub open spec fn client_url_text(http_port: nat, port: nat, fingerprint: Seq<char>) -> Seq<char> {
    if fingerprint.len() == 0 {
        "http://127.0.0.1:"@ + decimal(http_port)
    } else {
        "http://127.0.0.1:"@ + decimal(http_port) + "/?serverUrl=https://127.0.0.1:"@ + decimal(
            port,
        ) + "&certHash="@ + fingerprint + "&autoconnect=1"@
    }
}

/// The address to open in a browser.
pub fn client_url(http_port: u16, port: u16, fingerprint: &str) -> (url: String)
    ensures
        url@ == client_url_text(http_port as nat, port as nat, fingerprint@),
{
    let mut url = "http://127.0.0.1:".to_owned();
    push_decimal(&mut url, http_port as u32);
    if fingerprint.unicode_len() > 0 {
        url.append("/?serverUrl=https://127.0.0.1:");
        push_decimal(&mut url, port as u32);
        url.append("&certHash=");
        url.append(fingerprint);
        url.append("&autoconnect=1");
    }
    url
}

// ---------------------------------------------------------------------------
// Laws
// ---------------------------------------------------------------------------

/// Whether a character may stand in a JSON string as it is, quotes and backslashes aside: control
/// characters may not.
pub open spec fn plain(c: char) -> bool {
    c as int >= 0x20
}

/// Whether a text holds no control characters.
pub open spec fn printable(text: Seq<char>) -> bool {
    forall|i: int| 0 <= i < text.len() ==> plain(#[trigger] text[i])
}

/// What a JSON reader makes of text inside a string, up to the quote that ends it, and how much
/// it has read then. Of JSON's escapes, only those of backslashes and quotes are read.
pub open spec fn read_escaped(s: Seq<char>) -> Option<(Seq<char>, int)>
    decreases s.len(),
{
    if s.len() == 0 || !plain(s[0]) {
        None
    } else if s[0] == '"' {
        Some((seq![], 1))
    } else if s[0] == '\\' {
        if s.len() < 2 || (s[1] != '\\' && s[1] != '"') {
            None
        } else {
            match read_escaped(s.skip(2)) {
                Some((text, taken)) => Some((seq![s[1]] + text, taken + 2)),
                None => None,
            }
        }
    } else {
        match read_escaped(s.skip(1)) {
            Some((text, taken)) => Some((seq![s[0]] + text, taken + 1)),
            None => None,
        }
    }
}

/// One escaped character after the other.
proof fn lemma_escaped_step(text: Seq<char>)
    requires
        text.len() > 0,
    ensures
        escaped(text) == (if text[0] == '\\' {
            seq!['\\', '\\']
        } else if text[0] == '"' {
            seq!['\\', '"']
        } else {
            seq![text[0]]
        }) + escaped(text.drop_first()),
{
    reveal_strlit("\\\\");
    reveal_strlit("\\\"");
    reveal_with_fuel(replace_char, 3);
    let rest = replace_char(text.drop_first(), '\\', "\\\\"@);
    let inner = replace_char(text, '\\', "\\\\"@);
    if text[0] == '\\' {
        assert("\\\\"@ =~= seq!['\\', '\\']);
        assert(inner =~= seq!['\\'] + (seq!['\\'] + rest));
        assert(inner.drop_first() =~= seq!['\\'] + rest);
        assert(inner.drop_first().drop_first() =~= rest);
        assert(escaped(text) =~= seq!['\\', '\\'] + escaped(text.drop_first()));
    } else {
        assert(inner =~= seq![text[0]] + rest);
        assert(inner.drop_first() =~= rest);
        assert("\\\""@ =~= seq!['\\', '"']);
        assert(escaped(text) =~= (if text[0] == '"' {
            seq!['\\', '"']
        } else {
            seq![text[0]]
        }) + escaped(text.drop_first()));
    }
}

/// An app's command is read back from the JSON list whatever quotes and backslashes it holds: the
/// string ends where it was meant to, not before and not after.
pub proof fn law_quoted_text_reads_back(text: Seq<char>, after: Seq<char>)
    requires
        printable(text),
    ensures
        quoted(text)[0] == '"',
        read_escaped((quoted(text) + after).skip(1)) == Some((text, quoted(text).len() - 1)),
{
    reveal_strlit("\"");
    lemma_read_escaped(text, after);
    assert((quoted(text) + after).skip(1) =~= escaped(text) + seq!['"'] + after);
    assert(quoted(text).len() == escaped(text).len() + 2);
}

/// The same, without the opening quote.
proof fn lemma_read_escaped(text: Seq<char>, after: Seq<char>)
    requires
        printable(text),
    ensures
        read_escaped(escaped(text) + seq!['"'] + after) == Some(
            (text, escaped(text).len() as int + 1),
        ),
    decreases text.len(),
{
    let s = escaped(text) + seq!['"'] + after;
    if text.len() == 0 {
        reveal_with_fuel(replace_char, 2);
        assert(escaped(text) =~= Seq::<char>::empty());
        assert(s[0] == '"');
        assert(text =~= seq![]);
    } else {
        let rest = text.drop_first();
        assert(plain(text[0]));
        assert(printable(rest)) by {
            assert forall|i: int| 0 <= i < rest.len() implies plain(#[trigger] rest[i]) by {
                assert(rest[i] == text[i + 1]);
            }
        }
        lemma_escaped_step(text);
        lemma_read_escaped(rest, after);
        let tail = escaped(rest) + seq!['"'] + after;
        if text[0] == '\\' || text[0] == '"' {
            assert(s.skip(2) =~= tail);
            assert(s[0] == '\\' && s[1] == text[0]);
            assert(seq![s[1]] + rest =~= text);
        } else {
            assert(s.skip(1) =~= tail);
            assert(s[0] == text[0]);
            assert(seq![s[0]] + rest =~= text);
        }
    }
}

/// What a JSON reader makes of a list of strings, from behind its opening bracket.
pub open spec fn read_items(s: Seq<char>) -> Option<Seq<Seq<char>>>
    decreases s.len(),
    via read_items_decreases
{
    if s.len() == 0 || s[0] != '"' {
        None
    } else {
        match read_escaped(s.skip(1)) {
            Some((item, taken)) => {
                let rest = s.skip(1 + taken);
                if rest.len() > 0 && rest[0] == ']' {
                    Some(seq![item])
                } else if rest.len() > 0 && rest[0] == ',' {
                    match read_items(rest.skip(1)) {
                        Some(items) => Some(seq![item] + items),
                        None => None,
                    }
                } else {
                    None
                }
            },
            None => None,
        }
    }
}

#[via_fn]
proof fn read_items_decreases(s: Seq<char>) {
    if s.len() > 0 {
        lemma_read_escaped_bounds(s.skip(1));
    }
}

/// A string that was read takes at least the quote that ends it, and no more than is there.
proof fn lemma_read_escaped_bounds(s: Seq<char>)
    ensures
        read_escaped(s) matches Some((_, taken)) ==> 1 <= taken <= s.len(),
    decreases s.len(),
{
    if s.len() > 0 && s[0] != '"' {
        if s[0] == '\\' {
            if s.len() >= 2 {
                lemma_read_escaped_bounds(s.skip(2));
            }
        } else {
            lemma_read_escaped_bounds(s.skip(1));
        }
    }
}

/// What a JSON reader makes of a list of strings.
pub open spec fn read_json_list(s: Seq<char>) -> Option<Seq<Seq<char>>> {
    if s.len() < 2 || s[0] != '[' {
        None
    } else if s[1] == ']' {
        Some(seq![])
    } else {
        read_items(s.skip(1))
    }
}

/// A list begins with its first item.
proof fn lemma_quoted_list_first(list: Seq<Seq<char>>)
    requires
        list.len() > 1,
    ensures
        quoted_list(list) == quoted(list[0]) + ","@ + quoted_list(list.drop_first()),
    decreases list.len(),
{
    let rest = list.drop_first();
    let before = list.drop_last();
    if list.len() == 2 {
        assert(before.len() == 1 && before[0] == list[0]);
        assert(rest.len() == 1 && rest[0] == list[1]);
        assert(quoted_list(before) == quoted(list[0]));
        assert(quoted_list(rest) == quoted(list[1]));
    } else {
        lemma_quoted_list_first(before);
        assert(before.drop_first() =~= rest.drop_last());
        assert(quoted_list(list) =~= quoted(list[0]) + ","@ + quoted_list(rest));
    }
}

/// The items of a list are read back.
proof fn lemma_read_items(list: Seq<Seq<char>>)
    requires
        list.len() > 0,
        forall|i: int| 0 <= i < list.len() ==> printable(#[trigger] list[i]),
    ensures
        read_items(quoted_list(list) + "]"@) == Some(list),
    decreases list.len(),
{
    reveal_strlit("]");
    reveal_strlit(",");
    let s = quoted_list(list) + "]"@;
    let first = list[0];
    if list.len() == 1 {
        law_quoted_text_reads_back(first, "]"@);
        assert(s.skip(quoted(first).len() as int) =~= "]"@);
        assert(seq![first] =~= list);
    } else {
        let rest = list.drop_first();
        lemma_quoted_list_first(list);
        lemma_read_items(rest);
        let tail = ","@ + quoted_list(rest) + "]"@;
        law_quoted_text_reads_back(first, tail);
        assert(s =~= quoted(first) + tail);
        assert(s.skip(quoted(first).len() as int) =~= tail);
        assert(tail.skip(1) =~= quoted_list(rest) + "]"@);
        assert(seq![first] + rest =~= list);
    }
}

/// The list of apps that is served reads back as the list of apps, whatever quotes, backslashes,
/// commas and brackets their commands hold.
pub proof fn law_app_list_reads_back(list: Seq<Seq<char>>)
    requires
        forall|i: int| 0 <= i < list.len() ==> printable(#[trigger] list[i]),
    ensures
        read_json_list(json_list(list)) == Some(list),
{
    reveal_strlit("[");
    reveal_strlit("]");
    reveal_strlit("\"");
    let s = json_list(list);
    if list.len() == 0 {
        assert(s =~= seq!['[', ']']);
        assert(list =~= seq![]);
    } else {
        lemma_read_items(list);
        assert(s.skip(1) =~= quoted_list(list) + "]"@);
        if list.len() > 1 {
            lemma_quoted_list_first(list);
        }
        assert(s[1] == '"');
    }
}

/// Two paths are answered without a file, those alone; all others are files: the root, and no path
/// at all, the start page.
pub proof fn law_routes(path: Seq<char>)
    ensures
        routed(path) is LaunchApps <==> path == "/api/launch-apps"@,
        routed(path) is Health <==> path == "/health"@,
        path.len() == 0 || path == seq!['/'] ==> routed(path) == (RouteView::File {
            path: "index.html"@,
        }),
{
    reveal_strlit("/api/launch-apps");
    reveal_strlit("/health");
    reveal_strlit("/");
    assert("/api/launch-apps"@.len() == 16);
    assert("/health"@.len() == 7);
    assert("/"@ =~= seq!['/']);
}

/// Any other path is a file, by what follows its leading slashes, however many.
pub proof fn law_file_routes(slashes: nat, path: Seq<char>)
    requires
        path.len() > 0,
        path[0] != '/',
        Seq::new(slashes, |i: int| '/') + path != "/api/launch-apps"@,
        Seq::new(slashes, |i: int| '/') + path != "/health"@,
    ensures
        routed(Seq::new(slashes, |i: int| '/') + path) == (RouteView::File { path }),
{
    let full = Seq::new(slashes, |i: int| '/') + path;
    reveal_strlit("/");
    law_leading_char_trimmed(slashes, '/', path);
    assert(full[slashes as int] == path[0]);
    if full == "/"@ {
        assert(full.len() == 1);
        assert(full[0] == '/');
        assert(slashes == 0);
    }
}

/// The last dot of a name is the one that no other follows.
proof fn lemma_last_dot(stem: Seq<char>, ext: Seq<char>)
    requires
        !ext.contains('.'),
    ensures
        last_dot(stem + seq!['.'] + ext) == Some(stem.len() as int),
        last_dot(ext) is None,
    decreases ext.len(),
{
    let name = stem + seq!['.'] + ext;
    if ext.len() > 0 {
        assert(ext.contains(ext.last()));
        let fewer = ext.drop_last();
        assert(!fewer.contains('.')) by {
            if fewer.contains('.') {
                let i = fewer.index_of('.');
                assert(ext[i] == '.');
            }
        }
        assert(name.drop_last() =~= stem + seq!['.'] + fewer);
        assert(name.last() == ext.last());
        lemma_last_dot(stem, fewer);
    } else {
        assert(name.last() == '.');
    }
}

/// The file that a path leads to is the last of its pieces, with a slash behind it or not.
proof fn lemma_file_name(directory: Seq<char>, name: Seq<char>)
    requires
        !name.contains('/'),
        name.len() > 0,
        name != "."@,
        name != ".."@,
    ensures
        file_name(name) == Some(name),
        file_name(directory + seq!['/'] + name) == Some(name),
        file_name(directory + seq!['/'] + name + seq!['/']) == Some(name),
{
    reveal_with_fuel(last_name, 3);
    lemma_split_whole(name, '/');
    lemma_split_whole(seq![], '/');
    law_split_joins(directory, '/', name);
    let pieces = split(directory, '/') + seq![name];
    assert(pieces.last() == name);
    law_split_joins(directory + seq!['/'] + name, '/', seq![]);
    let more = pieces + seq![Seq::<char>::empty()];
    assert(directory + seq!['/'] + name + seq!['/'] + Seq::<char>::empty() =~= directory + seq!['/']
        + name + seq!['/']);
    assert(more.last() == Seq::<char>::empty());
    assert(more.drop_last() =~= pieces);
}

/// The extension of a file is what follows the last dot of its name, in whatever directory it is;
/// a name without a dot, or with none but the one that begins it, has none.
pub proof fn law_extension(directory: Seq<char>, stem: Seq<char>, ext: Seq<char>)
    requires
        !stem.contains('/'),
        !ext.contains('/'),
        !ext.contains('.'),
        ext.len() > 0,
    ensures
        stem.len() > 0 ==> extension(stem + seq!['.'] + ext) == Some(ext) && extension(
            directory + seq!['/'] + (stem + seq!['.'] + ext),
        ) == Some(ext),
        extension(seq!['.'] + ext) is None,
        extension(directory + seq!['/'] + (seq!['.'] + ext)) is None,
        extension(ext) is None,
        extension(directory + seq!['/'] + ext) is None,
{
    reveal_strlit(".");
    reveal_strlit("..");
    let name = stem + seq!['.'] + ext;
    let hidden = seq!['.'] + ext;
    lemma_last_dot(stem, ext);
    lemma_last_dot(seq![], ext);
    assert(Seq::<char>::empty() + seq!['.'] + ext =~= hidden);
    assert(ext.contains(ext.last()));
    assert(name.last() == ext.last() && hidden.last() == ext.last());
    assert("."@.last() == '.' && ".."@.last() == '.');
    assert(!name.contains('/')) by {
        assert forall|i: int| 0 <= i < name.len() implies name[i] != '/' by {
            if i < stem.len() {
                assert(stem.contains(name[i]));
            } else if i > stem.len() {
                assert(ext.contains(name[i]));
            }
        }
    }
    assert(!hidden.contains('/')) by {
        assert forall|i: int| 0 <= i < hidden.len() implies hidden[i] != '/' by {
            if i > 0 {
                assert(ext.contains(hidden[i]));
            }
        }
    }
    lemma_file_name(directory, name);
    lemma_file_name(directory, hidden);
    lemma_file_name(directory, ext);
    assert(name.skip(stem.len() as int + 1) =~= ext);
}

/// The media type of a file goes by its extension alone: two files with the same extension have
/// the same, the seven kinds of file that the web client is made of have the type of their kind,
/// and any other file is a row of bytes.
pub proof fn law_media_types(path: Seq<char>, other: Seq<char>)
    ensures
        extension(path) == extension(other) ==> media_type(path) == media_type(other),
        extension(path) == Some("html"@) ==> media_type(path) == "text/html; charset=utf-8"@,
        extension(path) == Some("js"@) ==> media_type(path)
            == "application/javascript; charset=utf-8"@,
        extension(path) == Some("css"@) ==> media_type(path) == "text/css; charset=utf-8"@,
        extension(path) == Some("json"@) ==> media_type(path) == "application/json"@,
        extension(path) == Some("wasm"@) ==> media_type(path) == "application/wasm"@,
        extension(path) == Some("png"@) ==> media_type(path) == "image/png"@,
        extension(path) == Some("svg"@) ==> media_type(path) == "image/svg+xml"@,
        extension(path) is None ==> media_type(path) == "application/octet-stream"@,
        !seq!["html"@, "js"@, "css"@, "json"@, "wasm"@, "png"@, "svg"@].contains(extension(path)->0)
            ==> media_type(path) == "application/octet-stream"@,
{
    reveal_strlit("html");
    reveal_strlit("js");
    reveal_strlit("css");
    reveal_strlit("json");
    reveal_strlit("wasm");
    reveal_strlit("png");
    reveal_strlit("svg");
    assert("html"@.len() == 4 && "json"@.len() == 4 && "wasm"@.len() == 4);
    assert("js"@.len() == 2 && "css"@.len() == 3 && "png"@.len() == 3 && "svg"@.len() == 3);
    assert("html"@[0] == 'h' && "json"@[0] == 'j' && "wasm"@[0] == 'w');
    assert("css"@[0] == 'c' && "png"@[0] == 'p' && "svg"@[0] == 's');
    let kinds = seq!["html"@, "js"@, "css"@, "json"@, "wasm"@, "png"@, "svg"@];
    assert(kinds[0] == "html"@ && kinds[1] == "js"@ && kinds[2] == "css"@ && kinds[3] == "json"@
        && kinds[4] == "wasm"@ && kinds[5] == "png"@ && kinds[6] == "svg"@);
}

/// The address leads to the HTTP port; with a fingerprint, it tells the client the port of the
/// server and the fingerprint, and to connect.
pub proof fn law_client_address(http_port: nat, port: nat, fingerprint: Seq<char>)
    ensures
        ({
            let url = client_url_text(http_port, port, fingerprint);
            let address = "http://127.0.0.1:"@ + decimal(http_port);
            &&& starts_with(url, address)
            &&& fingerprint.len() == 0 ==> url == address
            &&& fingerprint.len() > 0 ==> contains_text(
                url,
                "serverUrl=https://127.0.0.1:"@ + decimal(port) + "&certHash="@ + fingerprint
                    + "&autoconnect=1"@,
            )
        }),
{
    let url = client_url_text(http_port, port, fingerprint);
    let address = "http://127.0.0.1:"@ + decimal(http_port);
    if fingerprint.len() == 0 {
        assert(url.subrange(0, address.len() as int) =~= address);
    } else {
        let query = "/?serverUrl=https://127.0.0.1:"@;
        let named = "serverUrl=https://127.0.0.1:"@;
        assert(query == query.take(2) + named) by {
            reveal_strlit("/?serverUrl=https://127.0.0.1:");
            reveal_strlit("serverUrl=https://127.0.0.1:");
            assert(query =~= query.take(2) + named);
        }
        lemma_address(
            address,
            query.take(2),
            named,
            decimal(port),
            "&certHash="@,
            fingerprint,
            "&autoconnect=1"@,
        );
    }
}

/// What stands in an address that is put together of these parts.
proof fn lemma_address(
    address: Seq<char>,
    mark: Seq<char>,
    a: Seq<char>,
    b: Seq<char>,
    c: Seq<char>,
    d: Seq<char>,
    e: Seq<char>,
)
    ensures
        ({
            let url = address + (mark + a) + b + c + d + e;
            &&& starts_with(url, address)
            &&& contains_text(url, a + b + c + d + e)
        }),
{
    let url = address + (mark + a) + b + c + d + e;
    let start = address + mark;
    assert(address + (mark + a) =~= start + a);
    assert(start + a + b =~= start + (a + b));
    assert(start + (a + b) + c =~= start + (a + b + c));
    assert(start + (a + b + c) + d =~= start + (a + b + c + d));
    assert(start + (a + b + c + d) + e =~= start + (a + b + c + d + e));
    law_occurs(url, a + b + c + d + e, start, seq![]);
    assert(start + (a + b + c + d + e) + seq![] =~= url);
    assert(url.subrange(0, address.len() as int) =~= address);
}

/// Quotes and backslashes are escaped with a backslash, wherever they stand; every other
/// character, control characters among them, is kept as it is.
pub proof fn law_escaped_chars(c: char, rest: Seq<char>)
    ensures
        c == '\\' || c == '"' ==> escaped(seq![c] + rest) == seq!['\\', c] + escaped(rest),
        c != '\\' && c != '"' ==> escaped(seq![c] + rest) == seq![c] + escaped(rest),
        escaped(seq![]) == Seq::<char>::empty(),
{
    let text = seq![c] + rest;
    assert(text.drop_first() =~= rest);
    lemma_escaped_step(text);
    reveal_with_fuel(replace_char, 2);
    assert(escaped(seq![]) =~= Seq::<char>::empty());
}

/// A list is written between brackets, with a comma between one item and the next and none beside
/// the brackets.
pub proof fn law_list_written(list: Seq<Seq<char>>, item: Seq<char>)
    ensures
        json_list(seq![]) == seq!['[', ']'],
        json_list(seq![item]) == seq!['['] + quoted(item) + seq![']'],
        list.len() > 0 ==> json_list(list.push(item)) == json_list(list).drop_last() + seq![',']
            + quoted(item) + seq![']'],
{
    reveal_strlit("[");
    reveal_strlit("]");
    reveal_strlit(",");
    assert(json_list(seq![]) =~= seq!['[', ']']);
    assert(json_list(seq![item]) =~= seq!['['] + quoted(item) + seq![']']);
    if list.len() > 0 {
        assert(list.push(item).drop_last() =~= list);
        assert(json_list(list.push(item)) =~= json_list(list).drop_last() + seq![','] + quoted(item)
            + seq![']']);
    }
}

/// A JSON response says that it is one, is a success, and may be read by pages from anywhere.
pub proof fn law_json_response(response: Response, json: Seq<char>)
    requires
        is_json_response(response, json),
    ensures
        response.status == 200,
        response.content_type is Some && response.content_type->0@ == "application/json"@,
        response.allow_any_origin,
        response.body@ == vstd::utf8::encode_utf8(json),
{
}

/// A piece of a path that is empty or a dot is passed over at its end, and a path that ends by
/// leading up leads to no file.
pub proof fn law_path_ends(path: Seq<char>)
    ensures
        file_name(path + seq!['/']) == file_name(path),
        file_name(path + seq!['/', '.']) == file_name(path),
        file_name(path + seq!['/', '.', '.']) is None,
        file_name(seq!['.', '.']) is None,
        file_name(seq!['.']) is None,
        file_name(seq![]) is None,
{
    reveal_strlit(".");
    reveal_strlit("..");
    reveal_with_fuel(last_name, 3);
    let none = Seq::<char>::empty();
    let dot = seq!['.'];
    let up = seq!['.', '.'];
    assert("."@ =~= dot);
    assert(".."@ =~= up);
    lemma_split_whole(none, '/');
    lemma_split_whole(dot, '/');
    lemma_split_whole(up, '/');
    law_split_joins(path, '/', none);
    law_split_joins(path, '/', dot);
    law_split_joins(path, '/', up);
    assert(path + seq!['/'] + none =~= path + seq!['/']);
    assert(path + seq!['/'] + dot =~= path + seq!['/', '.']);
    assert(path + seq!['/'] + up =~= path + seq!['/', '.', '.']);
    let pieces = split(path, '/');
    assert((pieces + seq![none]).drop_last() =~= pieces);
    assert((pieces + seq![dot]).drop_last() =~= pieces);
    assert((pieces + seq![none]).last() == none);
    assert((pieces + seq![dot]).last() == dot);
    assert((pieces + seq![up]).last() == up);
    assert(seq![none].drop_last() =~= Seq::<Seq<char>>::empty());
    assert(seq![dot].drop_last() =~= Seq::<Seq<char>>::empty());
    assert(up.len() == 2 && dot.len() == 1);
}

} // verus!
