use vstd::prelude::*;
use vstd::string::*;
use vstd::utf8::encode_utf8;
use vstd::utf8::is_ascii_chars;
use vstd::utf8::is_ascii_chars_encode_utf8;

verus! {

/// The character of a decimal digit.
pub open spec fn digit(d: nat) -> char {
    if d == 0 {
        '0'
    } else if d == 1 {
        '1'
    } else if d == 2 {
        '2'
    } else if d == 3 {
        '3'
    } else if d == 4 {
        '4'
    } else if d == 5 {
        '5'
    } else if d == 6 {
        '6'
    } else if d == 7 {
        '7'
    } else if d == 8 {
        '8'
    } else {
        '9'
    }
}

/// A number in decimal notation, without leading zeros.
pub open spec fn decimal(n: nat) -> Seq<char>
    decreases n,
{
    if n < 10 {
        seq![digit(n)]
    } else {
        decimal(n / 10).push(digit(n % 10))
    }
}

/// The number of bytes that a text takes in UTF-8.
pub open spec fn byte_length(text: Seq<char>) -> nat {
    encode_utf8(text).len()
}

/// An HTTP response: the status line, the length of the body in bytes, an
/// empty line and the body, with lines ending in carriage return and line
/// feed.
pub open spec fn response_text(status_line: Seq<char>, contents: Seq<char>) -> Seq<char> {
    status_line + "\r\nContent-Length: "@ + decimal(byte_length(contents)) + "\r\n\r\n"@ + contents
}

fn digit_text(d: usize) -> (text: &'static str)
    requires
        d < 10,
    ensures
        text@ == seq![digit(d as nat)],
{
    proof {
        reveal_strlit("0");
        reveal_strlit("1");
        reveal_strlit("2");
        reveal_strlit("3");
        reveal_strlit("4");
        reveal_strlit("5");
        reveal_strlit("6");
        reveal_strlit("7");
        reveal_strlit("8");
        reveal_strlit("9");
    }
    let text: &'static str = if d == 0 {
        "0"
    } else if d == 1 {
        "1"
    } else if d == 2 {
        "2"
    } else if d == 3 {
        "3"
    } else if d == 4 {
        "4"
    } else if d == 5 {
        "5"
    } else if d == 6 {
        "6"
    } else if d == 7 {
        "7"
    } else if d == 8 {
        "8"
    } else {
        "9"
    };
    assert(text@ =~= seq![digit(d as nat)]);
    text
}

fn push_decimal(text: &mut String, n: usize)
    ensures
        final(text)@ == old(text)@ + decimal(n as nat),
    decreases n,
{
    if n >= 10 {
        push_decimal(text, n / 10);
    }
    text.append(digit_text(n % 10));
    assert(text@ =~= old(text)@ + decimal(n as nat));
}

/// A response with the given status line and body.
pub fn response(status_line: &str, contents: &str) -> (framed: String)
    ensures
        framed@ == response_text(status_line@, contents@),
{
    let length: usize = contents.as_bytes().len();
    assert(length == byte_length(contents@));
    let mut framed: String = String::from_str(status_line);
    framed.append("\r\nContent-Length: ");
    push_decimal(&mut framed, length);
    framed.append("\r\n\r\n");
    framed.append(contents);
    assert(framed@ =~= response_text(status_line@, contents@));
    framed
}

/// The response that carries `contents` with the status 200.
pub fn response_200(contents: String) -> (framed: String)
    ensures
        framed@ == response_text("HTTP/1.1 200 OK"@, contents@),
{
    response("HTTP/1.1 200 OK", contents.as_str())
}

/// The response for a request that nothing answers: the status 404 and a
/// heading as its body.
pub fn response_404() -> (framed: String)
    ensures
        framed@ == response_text("HTTP/1.1 404 Not Found"@, "<h1>404</h1>"@),
        framed@ == "HTTP/1.1 404 Not Found\r\nContent-Length: 12\r\n\r\n<h1>404</h1>"@,
{
    let framed: String = response("HTTP/1.1 404 Not Found", "<h1>404</h1>");
    proof {
        reveal_strlit("HTTP/1.1 404 Not Found");
        reveal_strlit("<h1>404</h1>");
        reveal_strlit("\r\nContent-Length: ");
        reveal_strlit("\r\n\r\n");
        reveal_strlit("HTTP/1.1 404 Not Found\r\nContent-Length: 12\r\n\r\n<h1>404</h1>");
        let body = "<h1>404</h1>"@;
        assert(body.len() == 12);
        assert(is_ascii_chars(body));
        is_ascii_chars_encode_utf8(body);
        assert(byte_length(body) == 12);
        reveal_with_fuel(decimal, 3);
        assert(decimal(12) =~= seq!['1', '2']);
        assert(framed@ =~= "HTTP/1.1 404 Not Found\r\nContent-Length: 12\r\n\r\n<h1>404</h1>"@);
    }
    framed
}

/// The response that carries a document in JSON, already written out as
/// text, with the status 202.
pub fn response_json(data: String) -> (framed: String)
    ensures
        framed@ == response_text("HTTP/1.1 202 Ok"@, data@),
{
    response("HTTP/1.1 202 Ok", data.as_str())
}

} // verus!
