//! One port for two kinds of client: telling a WebSocket request from a browser that wants
//! the viewer page, and the head of the page's response.

use crate::text;
use vstd::prelude::*;
use vstd::string::*;

verus! {

/// What a client is given.
#[derive(Debug, Clone, Copy, PartialEq, Eq, Structural)]
pub enum Route {
    /// The stream of frames over a WebSocket.
    WebSocket,
    /// The viewer page over HTTP.
    Page,
}

/// The text of the first bytes of a request; empty where they are not UTF-8.
pub open spec fn head_text(head: Seq<u8>) -> Seq<char> {
    if vstd::utf8::valid_utf8(head) {
        vstd::utf8::decode_utf8(head)
    } else {
        seq![]
    }
}

/// Whether the characters from `i` up to `j` are a whole line, without its line feed.
pub open spec fn is_line(s: Seq<char>, i: int, j: int) -> bool {
    &&& 0 <= i <= j <= s.len()
    &&& i == 0 || s[i - 1] == '\n'
    &&& j == s.len() || s[j] == '\n'
    &&& forall|k: int| i <= k < j ==> s[k] != '\n'
}

/// Whether `word` stands in `s` at `at`.
pub open spec fn stands_at(s: Seq<char>, word: Seq<char>, at: int) -> bool {
    0 <= at && at + word.len() <= s.len() && s.subrange(at, at + word.len()) == word
}

/// Whether `word` stands anywhere in `s`.
pub open spec fn holds_word(s: Seq<char>, word: Seq<char>) -> bool {
    exists|at: int| stands_at(s, word, at)
}

/// Whether a line, in small letters, asks for a WebSocket.
pub open spec fn asks_for_websocket(line: Seq<char>) -> bool {
    stands_at(line, "upgrade:"@, 0) && holds_word(line, "websocket"@)
}

/// Whether a request, in small letters, has a line that asks for a WebSocket.
pub open spec fn has_upgrade_line(s: Seq<char>) -> bool {
    exists|i: int, j: int| is_line(s, i, j) && #[trigger] asks_for_websocket(s.subrange(i, j))
}

/// What a client is given for the first bytes of its request.
pub open spec fn route_of(head: Seq<u8>) -> Route {
    if has_upgrade_line(text::lower_text(head_text(head))) {
        Route::WebSocket
    } else {
        Route::Page
    }
}

/// Calls `std::str::from_utf8`. Trusted: it succeeds exactly on valid UTF-8, with the text
/// that the bytes encode.
#[verifier::external_body]
fn utf8_text(bytes: &[u8]) -> (res: Option<&str>)
    ensures
        res is Some <==> vstd::utf8::valid_utf8(bytes@),
        res matches Some(s) ==> s@ == vstd::utf8::decode_utf8(bytes@),
{
    match std::str::from_utf8(bytes) {
        Ok(s) => Some(s),
        Err(_) => None,
    }
}

/// Whether `word` stands in `s` at `at`.
fn word_at(s: &Vec<char>, word: &Vec<char>, at: usize) -> (res: bool)
    requires
        at <= s@.len(),
    ensures
        res == stands_at(s@, word@, at as int),
{
    if word.len() > s.len() - at {
        return false;
    }
    let mut k: usize = 0;
    while k < word.len()
        invariant
            k <= word.len(),
            at + word.len() <= s.len(),
            forall|n: int| 0 <= n < k ==> s@[at + n] == word@[n],
        decreases word@.len() - k,
    {
        if s[at + k] != word[k] {
            assert(s@.subrange(at as int, at + word@.len())[k as int] != word@[k as int]);
            return false;
        }
        k += 1;
    }
    assert(s@.subrange(at as int, at + word@.len()) =~= word@);
    true
}

/// Whether `word` stands in the characters of `s` from `from` up to `to`.
fn word_between(s: &Vec<char>, word: &Vec<char>, from: usize, to: usize) -> (res: bool)
    requires
        from <= to <= s@.len(),
    ensures
        res == holds_word(s@.subrange(from as int, to as int), word@),
{
    let ghost line = s@.subrange(from as int, to as int);
    if word.len() > to - from {
        return false;
    }
    let last: usize = to - word.len();
    let mut at: usize = from;
    loop
        invariant
            from <= at <= last,
            last + word@.len() == to,
            to <= s@.len(),
            line == s@.subrange(from as int, to as int),
            forall|k: int| 0 <= k < at - from ==> !stands_at(line, word@, k),
        decreases last - at,
    {
        assert(line.subrange(at - from, at - from + word@.len()) =~= s@.subrange(
            at as int,
            at + word@.len(),
        ));
        if word_at(s, word, at) {
            assert(stands_at(line, word@, at - from));
            return true;
        }
        assert(!stands_at(line, word@, at - from));
        if at == last {
            return false;
        }
        at += 1;
    }
}

/// The end of the line that starts at `from`.
fn line_end(s: &Vec<char>, from: usize) -> (res: usize)
    requires
        from <= s@.len(),
        from == 0 || s@[from - 1] == '\n',
    ensures
        is_line(s@, from as int, res as int),
{
    let mut to: usize = from;
    while to < s.len() && s[to] != '\n'
        invariant
            from <= to <= s@.len(),
            forall|k: int| from <= k < to ==> s@[k] != '\n',
        decreases s@.len() - to,
    {
        to += 1;
    }
    to
}

/// Whether a request, in small letters, has a line that asks for a WebSocket.
fn find_upgrade_line(s: &Vec<char>) -> (res: bool)
    ensures
        res == has_upgrade_line(s@),
{
    let upgrade: Vec<char> = text::chars_of("upgrade:");
    let websocket: Vec<char> = text::chars_of("websocket");
    let mut from: usize = 0;
    loop
        invariant
            upgrade@ == "upgrade:"@,
            websocket@ == "websocket"@,
            from <= s@.len(),
            from == 0 || s@[from - 1] == '\n',
            forall|i: int, j: int|
                i < from && is_line(s@, i, j) ==> !#[trigger] asks_for_websocket(
                    s@.subrange(i, j),
                ),
        decreases s@.len() - from,
    {
        let to: usize = line_end(s, from);
        let ghost line = s@.subrange(from as int, to as int);
        let mut starts: bool = false;
        if upgrade.len() <= to - from {
            starts = word_at(s, &upgrade, from);
            assert(line.subrange(0, upgrade@.len() as int) =~= s@.subrange(
                from as int,
                from + upgrade@.len(),
            ));
        }
        assert(starts == stands_at(line, upgrade@, 0));
        if starts && word_between(s, &websocket, from, to) {
            assert(asks_for_websocket(s@.subrange(from as int, to as int)));
            return true;
        }
        assert forall|i: int, j: int|
            i <= to && is_line(s@, i, j) implies !#[trigger] asks_for_websocket(
            s@.subrange(i, j),
        ) by {
            if i == from {
                // Two ends of one line are the same.
                if j < to {
                    assert(s@[j] == '\n');
                } else if to < j {
                    assert(s@[to as int] == '\n');
                }
            } else if i > from {
                assert(s@[i - 1] == '\n');
            }
        }
        if to == s.len() {
            return false;
        }
        from = to + 1;
    }
}

/// Tells from the first bytes of a request what the client is given. A request for a
/// WebSocket has a header line that starts with `upgrade:` and names `websocket`, in
/// letters of either case; every other client is given the page.
pub fn dispatch(head: &[u8]) -> (res: Route)
    ensures
        res == route_of(head@),
{
    let chars: Vec<char> = match utf8_text(head) {
        Some(s) => text::chars_of(s),
        None => Vec::new(),
    };
    assert(chars@ =~= head_text(head@));
    let lowered: Vec<char> = text::lower_chars(&chars);
    if find_upgrade_line(&lowered) {
        Route::WebSocket
    } else {
        Route::Page
    }
}

/// The head of the response that carries the page.
pub open spec fn page_head(body_len: usize) -> Seq<char> {
    "HTTP/1.1 200 OK\r\nContent-Type: text/html; charset=utf-8\r\nContent-Length: "@
        + text::decimal(body_len as nat)
        + "\r\nCache-Control: no-store\r\nConnection: close\r\n\r\n"@
}

/// The head of the response that carries a page of `body_len` bytes.
pub fn serve_http(body_len: usize) -> (res: String)
    ensures
        res@ == page_head(body_len),
{
    let mut head =
        "HTTP/1.1 200 OK\r\nContent-Type: text/html; charset=utf-8\r\nContent-Length: ".to_owned();
    text::push_decimal(&mut head, body_len as u64);
    head.append("\r\nCache-Control: no-store\r\nConnection: close\r\n\r\n");
    head
}

/// The route does not depend on the case of the request's letters.
pub proof fn lemma_route_ignores_case(a: Seq<u8>, b: Seq<u8>)
    requires
        text::lower_text(head_text(a)) == text::lower_text(head_text(b)),
    ensures
        route_of(a) == route_of(b),
{
}

/// A request with the header that opens a WebSocket, in letters of either case and with
/// anything after it on its line, is given the WebSocket.
pub proof fn lemma_websocket_header_is_routed(head: Seq<u8>, i: int, j: int)
    requires
        ({
            let s = text::lower_text(head_text(head));
            is_line(s, i, j) && stands_at(s.subrange(i, j), "upgrade: websocket"@, 0)
        }),
    ensures
        route_of(head) == Route::WebSocket,
{
    let line = text::lower_text(head_text(head)).subrange(i, j);
    reveal_strlit("upgrade: websocket");
    reveal_strlit("upgrade:");
    reveal_strlit("websocket");
    let header = line.subrange(0, 18);
    assert(header == "upgrade: websocket"@);
    assert forall|k: int| 0 <= k < 18 implies line[k] == "upgrade: websocket"@[k] by {
        assert(header[k] == line[k]);
    }
    assert(line.subrange(0, 8) =~= "upgrade:"@);
    assert(line.subrange(9, 18) =~= "websocket"@);
    assert(stands_at(line, "websocket"@, 9));
    assert(asks_for_websocket(line));
}

/// Whether a line that starts at `i` and ends at `j` says, in letters of either case,
/// `upgrade:` at its start and `websocket` at `at`.
pub open spec fn upgrade_stands(s: Seq<char>, i: int, j: int, at: int) -> bool {
    let upgrade = seq!['u', 'p', 'g', 'r', 'a', 'd', 'e', ':'];
    let websocket = seq!['w', 'e', 'b', 's', 'o', 'c', 'k', 'e', 't'];
    &&& 0 <= i && i + 8 <= j <= s.len() && i <= at && at + 9 <= j
    &&& i == 0 || s[i - 1] == '\n'
    &&& j == s.len() || s[j] == '\n'
    &&& forall|k: int| i <= k < j ==> s[k] != '\n'
    &&& forall|k: int| 0 <= k < 8 ==> #[trigger] text::same_letter(s[i + k], upgrade[k])
    &&& forall|k: int| 0 <= k < 9 ==> #[trigger] text::same_letter(s[at + k], websocket[k])
}

/// The two words, as characters.
proof fn lemma_words_spelled()
    ensures
        "upgrade:"@ == seq!['u', 'p', 'g', 'r', 'a', 'd', 'e', ':'],
        "websocket"@ == seq!['w', 'e', 'b', 's', 'o', 'c', 'k', 'e', 't'],
        forall|k: int| 0 <= k < 8 ==> !(65 <= #[trigger] "upgrade:"@[k] as int <= 90),
        forall|k: int| 0 <= k < 9 ==> !(65 <= #[trigger] "websocket"@[k] as int <= 90),
{
    reveal_strlit("upgrade:");
    reveal_strlit("websocket");
    assert("upgrade:"@ =~= seq!['u', 'p', 'g', 'r', 'a', 'd', 'e', ':']);
    assert("websocket"@ =~= seq!['w', 'e', 'b', 's', 'o', 'c', 'k', 'e', 't']);
}

/// Making letters small moves no line.
proof fn lemma_small_lines(s: Seq<char>, i: int, j: int)
    ensures
        is_line(text::lower_text(s), i, j) <==> is_line(s, i, j),
{
    let t = text::lower_text(s);
    assert forall|k: int| 0 <= k < s.len() implies ((#[trigger] t[k]) == '\n') == (s[k] == '\n') by {
        text::lemma_small_letters(s, k);
    }
    if is_line(t, i, j) {
        assert forall|k: int| i <= k < j implies s[k] != '\n' by {
            assert(t[k] != '\n');
        }
    }
    if is_line(s, i, j) {
        assert forall|k: int| i <= k < j implies t[k] != '\n' by {
            assert(s[k] != '\n');
        }
    }
}

/// A word stands in a text made small exactly where it stands in the text in letters of
/// either case.
proof fn lemma_small_word_at(s: Seq<char>, word: Seq<char>, i: int, j: int, at: int)
    requires
        0 <= i <= j <= s.len(),
        forall|k: int| 0 <= k < word.len() ==> !(65 <= #[trigger] word[k] as int <= 90),
    ensures
        stands_at(text::lower_text(s).subrange(i, j), word, at - i) <==> i <= at && at
            + word.len() <= j && forall|k: int|
            0 <= k < word.len() ==> #[trigger] text::same_letter(s[at + k], word[k]),
{
    if i <= at && at + word.len() <= j {
        let part = s.subrange(at, at + word.len());
        let line = text::lower_text(s).subrange(i, j);
        assert(line.subrange(at - i, at - i + word.len()) =~= text::lower_text(part));
        text::lemma_small_word(part, word);
        if text::lower_text(part) == word {
            assert forall|k: int| 0 <= k < word.len() implies #[trigger] text::same_letter(
                s[at + k],
                word[k],
            ) by {
                assert(text::same_letter(part[k], word[k]));
            }
        }
        if forall|k: int| 0 <= k < word.len() ==> #[trigger] text::same_letter(s[at + k], word[k]) {
            assert forall|k: int| 0 <= k < word.len() implies #[trigger] text::same_letter(
                part[k],
                word[k],
            ) by {
                assert(text::same_letter(s[at + k], word[k]));
            }
        }
    }
}

/// A client is given the WebSocket if some line of its request starts with `upgrade:` and
/// holds `websocket`, anywhere behind the line's start and in letters of either case.
pub proof fn lemma_upgrade_opens_websocket(head: Seq<u8>, i: int, j: int, at: int)
    requires
        vstd::utf8::valid_utf8(head),
        upgrade_stands(vstd::utf8::decode_utf8(head), i, j, at),
    ensures
        route_of(head) == Route::WebSocket,
{
    let s = vstd::utf8::decode_utf8(head);
    let t = text::lower_text(s);
    lemma_words_spelled();
    lemma_small_lines(s, i, j);
    lemma_small_word_at(s, "upgrade:"@, i, j, i);
    lemma_small_word_at(s, "websocket"@, i, j, at);
    assert(stands_at(t.subrange(i, j), "websocket"@, at - i));
    assert(is_line(t, i, j) && asks_for_websocket(t.subrange(i, j)));
}

/// A client is given the WebSocket only if its request is UTF-8 and has a line that starts
/// with `upgrade:` and holds `websocket`, in letters of either case; the result says where.
/// So a request in which no line starts so, or none that does holds the word, gets the page.
pub proof fn lemma_websocket_needs_upgrade(head: Seq<u8>) -> (found: (int, int, int))
    requires
        route_of(head) == Route::WebSocket,
    ensures
        vstd::utf8::valid_utf8(head),
        upgrade_stands(vstd::utf8::decode_utf8(head), found.0, found.1, found.2),
{
    let s = head_text(head);
    let t = text::lower_text(s);
    lemma_words_spelled();
    let (i, j) = choose|i: int, j: int|
        is_line(t, i, j) && #[trigger] asks_for_websocket(t.subrange(i, j));
    let line = t.subrange(i, j);
    let k = choose|k: int| stands_at(line, "websocket"@, k);
    lemma_small_lines(s, i, j);
    lemma_small_word_at(s, "upgrade:"@, i, j, i);
    lemma_small_word_at(s, "websocket"@, i, j, i + k);
    (i, j, i + k)
}

/// Where no line of a request starts with `upgrade:` and holds `websocket`, the client is
/// given the page.
pub proof fn lemma_other_requests_get_the_page(head: Seq<u8>)
    requires
        vstd::utf8::valid_utf8(head) ==> forall|i: int, j: int, at: int|
            !upgrade_stands(vstd::utf8::decode_utf8(head), i, j, at),
    ensures
        route_of(head) == Route::Page,
{
    if route_of(head) == Route::WebSocket {
        let found = lemma_websocket_needs_upgrade(head);
        assert(upgrade_stands(vstd::utf8::decode_utf8(head), found.0, found.1, found.2));
    }
}

/// The head of the page's response gives the page's length in bytes, and ends with an empty
/// line.
pub proof fn lemma_page_head_gives_length(body_len: usize) -> (length: Seq<char>)
    ensures
        text::reads_as(length, body_len as int),
        page_head(body_len)
            == "HTTP/1.1 200 OK\r\nContent-Type: text/html; charset=utf-8\r\nContent-Length: "@
            + length + "\r\nCache-Control: no-store\r\nConnection: close\r\n\r\n"@,
{
    text::lemma_decimal_reads_as(body_len as nat);
    text::decimal(body_len as nat)
}

} // verus!
