//! The "site blocked" page served on loopback to browsers whose lookups
//! were sinkholed: reading the `Host` header, escaping it, and rendering a
//! self-contained HTML page and its HTTP response.
use vstd::prelude::*;

use crate::text::{chars_eq, chars_of, concat, decimal, decimal_of, is_ws, lines, lines_of, lower, lower_chars, slice_chars,
    string_of, trim, trim_chars};

verus! {

/// The page up to the host in its title.
pub const PAGE_HEAD: &'static str = r##"<!doctype html>
<html lang="en">
<head>
<meta charset="utf-8">
<meta name="viewport" content="width=device-width, initial-scale=1">
<title>Blocked &middot; "##;

/// The page between the title's host and the displayed host.
pub const PAGE_MIDDLE: &'static str = r##"</title>
<style>
  :root { color-scheme: dark; }
  * { box-sizing: border-box; }
  body {
    margin: 0; min-height: 100vh; display: grid; place-items: center;
    font-family: -apple-system, BlinkMacSystemFont, "Segoe UI", Inter, sans-serif;
    color: #e6e6e8;
    background: radial-gradient(1200px 600px at 50% -10%, #1b2440 0%, #0e0e10 60%);
  }
  .card {
    width: min(92vw, 460px); text-align: center; padding: 2.4rem 2rem;
    background: #161823; border: 1px solid #262a3a; border-radius: 18px;
    box-shadow: 0 24px 60px rgba(0,0,0,.45);
  }
  .logo { width: 76px; height: 76px; margin: 0 auto 1.2rem; display: block; }
  h1 { font-size: 1.5rem; margin: 0 0 .5rem; }
  p { color: #aab0c0; line-height: 1.5; margin: .4rem 0; }
  .host {
    display: inline-block; margin-top: 1rem; padding: .5rem .9rem;
    font-family: ui-monospace, SFMono-Regular, Menlo, monospace; font-size: .95rem;
    color: #cfe0ff; background: #1b2440; border: 1px solid #2c3a64; border-radius: 10px;
  }
  .foot { margin-top: 1.6rem; font-size: .8rem; color: #6f7488; }
</style>
</head>
<body>
  <main class="card">
    <svg class="logo" viewBox="0 0 512 512" xmlns="http://www.w3.org/2000/svg" aria-hidden="true">
      <defs>
        <linearGradient id="g" x1="0" y1="0" x2="512" y2="512" gradientUnits="userSpaceOnUse">
          <stop stop-color="#3b82f6"/><stop offset="1" stop-color="#6366f1"/>
        </linearGradient>
      </defs>
      <rect width="512" height="512" rx="114" fill="url(#g)"/>
      <path d="M256 92 L398 142 V268 C398 350 332 404 256 432 C180 404 114 350 114 268 V142 Z" fill="#eef3ff"/>
      <g stroke="#3b5bdb" stroke-width="26" stroke-linecap="round" fill="none">
        <circle cx="256" cy="262" r="74"/><line x1="206" y1="212" x2="306" y2="312"/>
      </g>
    </svg>
    <h1>Site blocked</h1>
    <p>Access to this site is blocked by <strong>Blocker</strong> while a focus session is active.</p>
    <span class="host">"##;

/// The page after the displayed host.
pub const PAGE_TAIL: &'static str = r##"</span>
    <p class="foot">Manage your blocklist and sessions in the Blocker app.</p>
  </main>
</body>
</html>
"##;

/// Shown in place of a missing `Host` header.
pub const UNKNOWN_HOST: &'static str = "this site";

/// The status line and headers before the body length.
pub const RESPONSE_START: &'static str = "HTTP/1.1 200 OK\r\nContent-Type: text/html; charset=utf-8\r\nContent-Length: ";

/// The headers after the body length, and the blank line.
pub const RESPONSE_HEADERS_END: &'static str = "\r\nCache-Control: no-store\r\nConnection: close\r\n\r\n";

/// The value of a `Host` header line, untrimmed: what follows `host:`, the
/// header name being matched in any ASCII letter case (`Host:`, `HOST:`).
pub open spec fn header_value(line: Seq<char>) -> Option<Seq<char>> {
    if line.len() >= 5 && lower(line.take(5)) == "host:"@ {
        Some(line.skip(5))
    } else {
        None
    }
}

/// The value of a `Host` header line (see [`header_value`]).
fn host_header_value(line: &[char]) -> (r: Option<Vec<char>>)
    ensures
        match r {
            Some(v) => header_value(line@) == Some(v@),
            None => header_value(line@) is None,
        },
{
    if line.len() < 5 {
        return None;
    }
    let name = lower_chars(&slice_chars(line, 0, 5));
    proof {
        assert(line@.subrange(0, 5) =~= line@.take(5));
    }
    if chars_eq(&name, &chars_of("host:")) {
        proof {
            assert(line@.subrange(5, line@.len() as int) =~= line@.skip(5));
        }
        Some(slice_chars(line, 5, line.len()))
    } else {
        None
    }
}

/// The value of the first `Host` header line among `ls`.
pub open spec fn first_host_value(ls: Seq<Seq<char>>) -> Option<Seq<char>>
    decreases ls.len(),
{
    if ls.len() == 0 {
        None
    } else {
        match header_value(ls[0]) {
            Some(v) => Some(v),
            None => first_host_value(ls.drop_first()),
        }
    }
}

/// The trimmed value of the first `Host` header of a request head, unless
/// there is none or it is blank.
pub open spec fn host_of(head: Seq<char>) -> Option<Seq<char>> {
    match first_host_value(lines(head)) {
        Some(v) => if trim(v).len() > 0 {
            Some(trim(v))
        } else {
            None
        },
        None => None,
    }
}

/// HTML escaping of one character.
pub open spec fn escape_char(c: char) -> Seq<char> {
    if c == '&' {
        "&amp;"@
    } else if c == '<' {
        "&lt;"@
    } else if c == '>' {
        "&gt;"@
    } else if c == '"' {
        "&quot;"@
    } else if c == '\'' {
        "&#39;"@
    } else {
        seq![c]
    }
}

/// HTML escaping of `s`: `& < > " '` become entities, the rest is kept.
pub open spec fn escaped(s: Seq<char>) -> Seq<char>
    decreases s.len(),
{
    if s.len() == 0 {
        Seq::empty()
    } else {
        escaped(s.drop_last()) + escape_char(s.last())
    }
}

/// The escaping of any text holds none of `< > " '`: the host cannot open a
/// tag or leave an attribute of the page.
pub proof fn lemma_escaped_has_no_markup(s: Seq<char>)
    ensures
        forall|i: int|
            0 <= i < escaped(s).len() ==> {
                let c = #[trigger] escaped(s)[i];
                c != '<' && c != '>' && c != '"' && c != '\''
            },
    decreases s.len(),
{
    if s.len() > 0 {
        lemma_escaped_has_no_markup(s.drop_last());
        reveal_strlit("&amp;");
        reveal_strlit("&lt;");
        reveal_strlit("&gt;");
        reveal_strlit("&quot;");
        reveal_strlit("&#39;");
        let head = escaped(s.drop_last());
        let tail = escape_char(s.last());
        assert(escaped(s) == head + tail);
        assert forall|i: int| 0 <= i < escaped(s).len() implies {
            let c = #[trigger] escaped(s)[i];
            c != '<' && c != '>' && c != '"' && c != '\''
        } by {
            if i >= head.len() {
                assert(escaped(s)[i] == tail[i - head.len()]);
            } else {
                assert(escaped(s)[i] == head[i]);
            }
        }
    }
}

/// The block page for `host`.
pub open spec fn page(host: Seq<char>) -> Seq<char> {
    PAGE_HEAD@ + escaped(host) + PAGE_MIDDLE@ + escaped(host) + PAGE_TAIL@
}

/// The HTTP response to a request whose head decodes to `head`.
pub open spec fn response_text(head: Seq<char>) -> Seq<char> {
    let host = match host_of(head) {
        Some(h) => h,
        None => UNKNOWN_HOST@,
    };
    let body = page(host);
    RESPONSE_START@ + decimal(crate::text::utf8_len(body)) + RESPONSE_HEADERS_END@ + body
}

/// Extracts the `Host` header value from a raw request head, if present.
pub fn parse_host(head: &str) -> (r: Option<String>)
    ensures
        match r {
            Some(h) => host_of(head@) == Some(h@),
            None => host_of(head@) is None,
        },
{
    let chars = chars_of(head);
    let ls = lines_of(&chars);
    let ghost all = lines(head@);
    let mut i: usize = 0;
    proof {
        assert(all.skip(0) =~= all);
    }
    while i < ls.len()
        invariant
            i <= ls.len(),
            ls@.map_values(|v: Vec<char>| v@) == all,
            all == lines(head@),
            first_host_value(all) == first_host_value(all.skip(i as int)),
        decreases ls.len() - i,
    {
        let line = &ls[i];
        assert(line@ == all[i as int]);
        match host_header_value(line) {
            Some(v) => {
                proof {
                    assert(all.skip(i as int)[0] == all[i as int]);
                    assert(header_value(all[i as int]) == Some(v@));
                }
                let t = trim_chars(&v);
                if t.len() == 0 {
                    return None;
                }
                return Some(string_of(&t));
            },
            None => {
                proof {
                    assert(all.skip(i as int).drop_first() =~= all.skip(i + 1));
                }
            },
        }
        i += 1;
    }
    proof {
        assert(all.skip(ls.len() as int) =~= Seq::<Seq<char>>::empty());
    }
    None
}

/// Minimal HTML escaping for the attacker-influenced text (the host).
pub fn escape(s: &str) -> (r: String)
    ensures
        r@ == escaped(s@),
{
    let chars = chars_of(s);
    let mut out: Vec<char> = Vec::new();
    let mut i: usize = 0;
    while i < chars.len()
        invariant
            i <= chars.len(),
            chars@ == s@,
            out@ == escaped(s@.take(i as int)),
        decreases chars.len() - i,
    {
        let c = chars[i];
        let piece = if c == '&' {
            chars_of("&amp;")
        } else if c == '<' {
            chars_of("&lt;")
        } else if c == '>' {
            chars_of("&gt;")
        } else if c == '"' {
            chars_of("&quot;")
        } else if c == '\'' {
            chars_of("&#39;")
        } else {
            let mut one: Vec<char> = Vec::new();
            one.push(c);
            one
        };
        proof {
            assert(piece@ =~= escape_char(c));
            let t = s@.take(i + 1);
            assert(t.drop_last() =~= s@.take(i as int));
            assert(t.last() == c);
        }
        out = concat(&out, &piece);
        i += 1;
    }
    proof {
        assert(s@.take(chars.len() as int) =~= s@);
    }
    string_of(&out)
}

/// The block page HTML. Self-contained (inline CSS and SVG) so that it
/// renders with no further requests, which would themselves be blocked.
pub fn render_page(host: &str) -> (r: String)
    ensures
        r@ == page(host@),
{
    let h = chars_of(escape(host).as_str());
    let a = concat(&chars_of(PAGE_HEAD), &h);
    let b = concat(&a, &chars_of(PAGE_MIDDLE));
    let c = concat(&b, &h);
    let d = concat(&c, &chars_of(PAGE_TAIL));
    string_of(&d)
}

/// The complete HTTP response serving the block page, for a request whose
/// head is `request` (decoded leniently; a missing or blank `Host` header
/// shows as "this site").
pub fn block_page_response(request: &[u8]) -> (r: String)
    ensures
        r@ == response_text(crate::text::utf8_lossy(request@)),
{
    let head = crate::text::lossy_text(request);
    let host = match parse_host(head.as_str()) {
        Some(h) => h,
        None => UNKNOWN_HOST.to_owned(),
    };
    let body = chars_of(render_page(host.as_str()).as_str());
    let length = decimal_of(crate::text::utf8_length(&body));
    let a = concat(&chars_of(RESPONSE_START), &length);
    let b = concat(&a, &chars_of(RESPONSE_HEADERS_END));
    string_of(&concat(&b, &body))
}

} // verus!
