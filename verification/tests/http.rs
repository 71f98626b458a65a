use remote_lab::http::{dispatch, serve_http, Route};

#[test]
fn websocket_request() {
    let head = b"GET / HTTP/1.1\r\nHost: h\r\nUpgrade: websocket\r\nConnection: Upgrade\r\n\r\n";
    assert_eq!(dispatch(head), Route::WebSocket);
}

#[test]
fn letter_case_does_not_matter() {
    assert_eq!(dispatch(b"GET / HTTP/1.1\r\nUPGRADE: h2c, WebSocket"), Route::WebSocket);
}

#[test]
fn browser_gets_the_page() {
    let head = b"GET / HTTP/1.1\r\nHost: h\r\nUser-Agent: websocket\r\nConnection: upgrade\r\n\r\n";
    assert_eq!(dispatch(head), Route::Page);
    assert_eq!(dispatch(b""), Route::Page);
}

#[test]
fn header_has_to_start_its_line() {
    assert_eq!(dispatch(b"GET /upgrade: websocket HTTP/1.1\r\n\r\n"), Route::Page);
    assert_eq!(dispatch(b"GET / HTTP/1.1\r\n Upgrade: websocket\r\n"), Route::Page);
    assert_eq!(dispatch(b"GET / HTTP/1.1\rUpgrade: websocket\r"), Route::Page);
}

#[test]
fn both_words_have_to_stand_in_one_line() {
    assert_eq!(dispatch(b"GET / HTTP/1.1\nUpgrade: h2c\nX: websocket\n"), Route::Page);
    assert_eq!(dispatch(b"GET / HTTP/1.1\nUpgrade:\nwebsocket\n"), Route::Page);
}

#[test]
fn cut_off_header_gets_the_page() {
    assert_eq!(dispatch(b"GET / HTTP/1.1\r\nUpgrade: websocke"), Route::Page);
    assert_eq!(dispatch(b"GET / HTTP/1.1\r\nUpgrade"), Route::Page);
}

#[test]
fn bytes_that_are_no_text_get_the_page() {
    let mut head = b"GET / HTTP/1.1\r\nUpgrade: websocket\r\n".to_vec();
    assert_eq!(dispatch(&head), Route::WebSocket);
    head.push(0xC3);
    assert_eq!(dispatch(&head), Route::Page);
    head.push(0xA4);
    assert_eq!(dispatch(&head), Route::WebSocket);
}

#[test]
fn page_head_gives_the_length() {
    assert_eq!(
        serve_http(1234),
        "HTTP/1.1 200 OK\r\nContent-Type: text/html; charset=utf-8\r\nContent-Length: 1234\r\nCache-Control: no-store\r\nConnection: close\r\n\r\n"
    );
}
