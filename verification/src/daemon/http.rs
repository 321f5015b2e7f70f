//! Reading the parts of an HTTP/1 request head that routing needs, and
//! writing the daemon's own responses.

use vstd::prelude::*;
use vstd::string::*;
use vstd::utf8::{decode_utf8, encode_utf8, valid_utf8};
use crate::text::{
    before, before_chars, byte_len, chars_eq_ignore_case, chars_of, decimal, decimal_string,
    eq_ignore_case, find, find_char_from, find_from, is_space, leading_space, lemma_find_from,
    lemma_find_from_unique, slice_chars, string_of, strip_scheme, strip_scheme_chars, trim,
    trim_bounds,
};

verus! {

/// The most bytes that a request head (up to and including its blank line)
/// may take.
pub const MAX_REQUEST_HEADER_BYTES: usize = 65536;

/// The text of a request, if its bytes are UTF-8.
pub open spec fn request_text(buffer: Seq<u8>) -> Option<Seq<char>> {
    if valid_utf8(buffer) {
        Some(decode_utf8(buffer))
    } else {
        None
    }
}

/// `l` without one trailing carriage return.
pub open spec fn strip_cr(l: Seq<char>) -> Seq<char> {
    if l.len() > 0 && l.last() == '\r' {
        l.drop_last()
    } else {
        l
    }
}

/// `str::lines`: the lines of `s`, split at `\n` with a `\r` before it
/// removed, without an empty line after a final `\n`.
pub open spec fn lines_of(s: Seq<char>) -> Seq<Seq<char>>
    decreases s.len(),
{
    if s.len() == 0 {
        Seq::empty()
    } else {
        match find(s, '\n') {
            Some(i) => if 0 <= i < s.len() {
                seq![strip_cr(s.take(i))] + lines_of(s.skip(i + 1))
            } else {
                seq![s]
            },
            None => seq![s],
        }
    }
}

/// The trimmed value of the first `name: value` line whose name matches
/// `header` ignoring ASCII case.
pub open spec fn header_in_lines(lines: Seq<Seq<char>>, header: Seq<char>) -> Option<Seq<char>>
    decreases lines.len(),
{
    if lines.len() == 0 {
        None
    } else {
        let l = lines[0];
        match find(l, ':') {
            Some(k) => if 0 <= k < l.len() && eq_ignore_case(l.take(k), header) {
                Some(trim(l.skip(k + 1)))
            } else {
                header_in_lines(lines.drop_first(), header)
            },
            None => header_in_lines(lines.drop_first(), header),
        }
    }
}

/// The value of header `header` in a request.
pub open spec fn header_spec(buffer: Seq<u8>, header: Seq<char>) -> Option<Seq<char>> {
    match request_text(buffer) {
        Some(t) => header_in_lines(lines_of(t), header),
        None => None,
    }
}

/// The `Host` header of a request without any port.
pub open spec fn host_spec(buffer: Seq<u8>) -> Option<Seq<char>> {
    match header_spec(buffer, "host"@) {
        Some(v) => Some(before(v, ':')),
        None => None,
    }
}

/// The index of the first `\r\n` in `s` at or after `from`.
pub open spec fn crlf_from(s: Seq<char>, from: int) -> Option<int>
    decreases s.len() - from,
{
    if from < 0 || from + 1 >= s.len() {
        None
    } else if s[from] == '\r' && s[from + 1] == '\n' {
        Some(from)
    } else {
        crlf_from(s, from + 1)
    }
}

/// The end of the request line: the first `\r\n`, or else the first `\n`.
pub open spec fn line_end(s: Seq<char>) -> Option<int> {
    match crlf_from(s, 0) {
        Some(i) => Some(i),
        None => find(s, '\n'),
    }
}

/// The index of the first white-space character of `s`, or its length.
pub open spec fn word_end(s: Seq<char>) -> int
    decreases s.len(),
{
    if s.len() == 0 || is_space(s[0]) {
        0
    } else {
        1 + word_end(s.drop_first())
    }
}

/// `str::split_whitespace`: the white-space-separated words of `s`.
pub open spec fn ws_words(s: Seq<char>) -> Seq<Seq<char>>
    decreases s.len(),
{
    let t = s.skip(leading_space(s) as int);
    if t.len() == 0 || leading_space(s) > s.len() {
        Seq::empty()
    } else {
        let k = word_end(t);
        if 0 < k <= t.len() {
            seq![t.take(k)] + ws_words(t.skip(k))
        } else {
            Seq::empty()
        }
    }
}

/// The words of the request line.
pub open spec fn request_line_words(buffer: Seq<u8>) -> Option<Seq<Seq<char>>> {
    match request_text(buffer) {
        Some(t) => match line_end(t) {
            Some(e) => Some(ws_words(t.take(e))),
            None => None,
        },
        None => None,
    }
}

/// The method and target of a request.
pub open spec fn method_path_spec(buffer: Seq<u8>) -> Option<(Seq<char>, Seq<char>)> {
    match request_line_words(buffer) {
        Some(w) => if w.len() >= 2 {
            Some((w[0], w[1]))
        } else {
            None
        },
        None => None,
    }
}

/// `str::from_utf8`: the text of `buffer` if it is UTF-8.
#[verifier::external_body]
fn utf8_text(buffer: &[u8]) -> (r: Option<&str>)
    ensures
        match r {
            Some(s) => valid_utf8(buffer@) && s@ == decode_utf8(buffer@),
            None => !valid_utf8(buffer@),
        },
{
    std::str::from_utf8(buffer).ok()
}

proof fn lemma_word_end(s: Seq<char>)
    ensures
        0 <= word_end(s) <= s.len(),
        forall|j: int| 0 <= j < word_end(s) ==> !is_space(#[trigger] s[j]),
        word_end(s) < s.len() ==> is_space(s[word_end(s)]),
    decreases s.len(),
{
    if s.len() > 0 && !is_space(s[0]) {
        lemma_word_end(s.drop_first());
        assert forall|j: int| 0 <= j < word_end(s) implies !is_space(#[trigger] s[j]) by {
            if j > 0 {
                assert(s[j] == s.drop_first()[j - 1]);
            }
        }
    }
}

proof fn lemma_word_end_unique(s: Seq<char>, k: int)
    requires
        0 <= k <= s.len(),
        forall|j: int| 0 <= j < k ==> !is_space(#[trigger] s[j]),
        k < s.len() ==> is_space(s[k]),
    ensures
        word_end(s) == k,
    decreases k,
{
    if k > 0 {
        lemma_word_end_unique(s.drop_first(), k - 1);
    }
}

proof fn lemma_leading_space_unique(s: Seq<char>, k: int)
    requires
        0 <= k <= s.len(),
        forall|j: int| 0 <= j < k ==> is_space(#[trigger] s[j]),
        k < s.len() ==> !is_space(s[k]),
    ensures
        leading_space(s) == k,
    decreases k,
{
    if k > 0 {
        lemma_leading_space_unique(s.drop_first(), k - 1);
    }
}

/// The bounds of the first two white-space-separated words of `s[from..to]`,
/// starting the search at `from`.
fn next_word(s: &[char], from: usize, to: usize) -> (r: Option<(usize, usize)>)
    requires
        from <= to <= s.len(),
    ensures
        match r {
            Some((a, b)) => from <= a < b <= to && {
                let w = ws_words(s@.subrange(from as int, to as int));
                &&& w.len() > 0
                &&& w[0] == s@.subrange(a as int, b as int)
                &&& w.drop_first() == ws_words(s@.subrange(b as int, to as int))
            },
            None => ws_words(s@.subrange(from as int, to as int)).len() == 0,
        },
{
    let ghost u = s@.subrange(from as int, to as int);
    let mut a: usize = from;
    while a < to && crate::text::char_is_space(s[a])
        invariant
            from <= a <= to <= s.len(),
            u == s@.subrange(from as int, to as int),
            forall|j: int| from <= j < a ==> is_space(#[trigger] s@[j]),
        decreases to - a,
    {
        a = a + 1;
    }
    proof {
        assert forall|j: int| 0 <= j < a - from implies is_space(#[trigger] u[j]) by {
            assert(u[j] == s@[j + from]);
        }
        if a < to {
            assert(u[a - from] == s@[a as int]);
        }
        lemma_leading_space_unique(u, a - from);
    }
    let ghost t = u.skip(a - from);
    assert(t =~= s@.subrange(a as int, to as int));
    if a == to {
        return None;
    }
    let mut b: usize = a;
    while b < to && !crate::text::char_is_space(s[b])
        invariant
            a <= b <= to <= s.len(),
            forall|j: int| a <= j < b ==> !is_space(#[trigger] s@[j]),
        decreases to - b,
    {
        b = b + 1;
    }
    proof {
        assert forall|j: int| 0 <= j < b - a implies !is_space(#[trigger] t[j]) by {
            assert(t[j] == s@[j + a]);
        }
        if b < to {
            assert(t[b - a] == s@[b as int]);
        }
        lemma_word_end_unique(t, b - a);
        assert(t.take(b - a) =~= s@.subrange(a as int, b as int));
        assert(t.skip(b - a) =~= s@.subrange(b as int, to as int));
        let w = ws_words(u);
        assert(w == seq![t.take(b - a)] + ws_words(t.skip(b - a)));
        assert(w.drop_first() =~= ws_words(t.skip(b - a)));
    }
    Some((a, b))
}

/// The index of the first `\r\n` in `s` at or after `from`.
fn find_crlf(s: &[char], from: usize) -> (r: Option<usize>)
    ensures
        match r {
            Some(i) => crlf_from(s@, from as int) == Some(i as int) && i + 1 < s.len(),
            None => crlf_from(s@, from as int) is None,
        },
    decreases s.len() - from,
{
    if from >= s.len() || from + 1 >= s.len() {
        None
    } else if s[from] == '\r' && s[from + 1] == '\n' {
        Some(from)
    } else {
        find_crlf(s, from + 1)
    }
}

/// The end of the request line.
fn find_line_end(s: &[char]) -> (r: Option<usize>)
    ensures
        match r {
            Some(i) => line_end(s@) == Some(i as int) && i < s.len(),
            None => line_end(s@) is None,
        },
{
    match find_crlf(s, 0) {
        Some(i) => Some(i),
        None => {
            let r = find_char_from(s, '\n', 0);
            proof {
                lemma_find_from(s@, '\n', 0);
            }
            r
        },
    }
}

/// The method and the target of the request in `buffer`: the first two words
/// of its first line.
pub fn request_method_path(buffer: &[u8]) -> (r: Option<(&str, &str)>)
    ensures
        match r {
            Some((m, p)) => method_path_spec(buffer@) == Some((m@, p@)),
            None => method_path_spec(buffer@) is None,
        },
{
    let request = match utf8_text(buffer) {
        Some(t) => t,
        None => return None,
    };
    let c = chars_of(request);
    let e = match find_line_end(&c) {
        Some(e) => e,
        None => return None,
    };
    assert(c@.subrange(0, e as int) =~= c@.take(e as int));
    let (a0, b0) = match next_word(&c, 0, e) {
        Some(w) => w,
        None => return None,
    };
    let (a1, b1) = match next_word(&c, b0, e) {
        Some(w) => w,
        None => return None,
    };
    let m = request.substring_char(a0, b0);
    let p = request.substring_char(a1, b1);
    Some((m, p))
}

/// The lines of `s[from..]`, one step: the first line's bounds and the start
/// of the rest.
proof fn lemma_lines_step(s: Seq<char>, from: int, i: int)
    requires
        0 <= from <= i < s.len(),
        s[i] == '\n',
        forall|j: int| from <= j < i ==> s[j] != '\n',
    ensures
        lines_of(s.skip(from)) == seq![strip_cr(s.subrange(from, i))] + lines_of(s.skip(i + 1)),
{
    let t = s.skip(from);
    lemma_find_from_unique(t, '\n', 0, Some(i - from));
    assert(t.take(i - from) =~= s.subrange(from, i));
    assert(t.skip(i - from + 1) =~= s.skip(i + 1));
}

proof fn lemma_lines_last(s: Seq<char>, from: int)
    requires
        0 <= from < s.len(),
        forall|j: int| from <= j < s.len() ==> s[j] != '\n',
    ensures
        lines_of(s.skip(from)) == seq![s.subrange(from, s.len() as int)],
{
    let t = s.skip(from);
    lemma_find_from_unique(t, '\n', 0, None);
    assert(t =~= s.subrange(from, s.len() as int));
}

/// The bounds of the trimmed value of `s[a..b]` as a `name: value` line
/// for `header`, if the line is one.
fn match_header_line(s: &[char], a: usize, b: usize, cr: bool, header: &[char]) -> (r: Option<
    (usize, usize),
>)
    requires
        a <= b <= s.len(),
    ensures
        ({
            let l = if cr {
                strip_cr(s@.subrange(a as int, b as int))
            } else {
                s@.subrange(a as int, b as int)
            };
            match r {
                Some((x, y)) => a <= x <= y <= b && match find(l, ':') {
                    Some(k) => 0 <= k < l.len() && eq_ignore_case(l.take(k), header@) && trim(
                        l.skip(k + 1),
                    ) == s@.subrange(x as int, y as int),
                    None => false,
                },
                None => !(match find(l, ':') {
                    Some(k) => 0 <= k < l.len() && eq_ignore_case(l.take(k), header@),
                    None => false,
                }),
            }
        }),
{
    let ghost l0 = s@.subrange(a as int, b as int);
    let end = if cr && b > a && s[b - 1] == '\r' {
        b - 1
    } else {
        b
    };
    let line = slice_chars(s, a, end);
    assert(cr ==> line@ =~= strip_cr(l0));
    assert(!cr ==> line@ =~= l0);
    let k = match find_char_from(&line, ':', 0) {
        Some(k) => k,
        None => return None,
    };
    proof {
        lemma_find_from(line@, ':', 0);
    }
    let name = slice_chars(&line, 0, k);
    assert(name@ =~= line@.take(k as int));
    if !chars_eq_ignore_case(&name, header) {
        return None;
    }
    let value = slice_chars(&line, k + 1, line.len());
    assert(value@ =~= line@.skip(k + 1));
    let (x, y) = trim_bounds(&value);
    assert(value@.subrange(x as int, y as int) =~= s@.subrange(a + k + 1 + x, a + k + 1 + y));
    Some((a + k + 1 + x, a + k + 1 + y))
}

/// The bounds in `s` of the value of header `header`.
fn header_bounds(s: &[char], header: &[char]) -> (r: Option<(usize, usize)>)
    ensures
        match r {
            Some((x, y)) => x <= y <= s.len() && header_in_lines(lines_of(s@), header@) == Some(
                s@.subrange(x as int, y as int),
            ),
            None => header_in_lines(lines_of(s@), header@) is None,
        },
{
    let mut pos: usize = 0;
    assert(s@.skip(0) =~= s@);
    while pos < s.len()
        invariant
            pos <= s.len(),
            header_in_lines(lines_of(s@), header@) == header_in_lines(
                lines_of(s@.skip(pos as int)),
                header@,
            ),
        decreases s.len() - pos,
    {
        let (end, next) = match find_char_from(s, '\n', pos) {
            Some(i) => (i, i + 1),
            None => (s.len(), s.len()),
        };
        proof {
            lemma_find_from(s@, '\n', pos as int);
            let ls = lines_of(s@.skip(pos as int));
            if end < s.len() {
                lemma_lines_step(s@, pos as int, end as int);
                assert(ls.drop_first() =~= lines_of(s@.skip(next as int)));
            } else {
                lemma_lines_last(s@, pos as int);
                assert(ls.drop_first() =~= Seq::<Seq<char>>::empty());
                assert(s@.skip(next as int) =~= Seq::<char>::empty());
            }
        }
        if let Some((x, y)) = match_header_line(s, pos, end, end < s.len(), header) {
            return Some((x, y));
        }
        pos = next;
    }
    proof {
        assert(s@.skip(pos as int) =~= Seq::<char>::empty());
    }
    None
}

/// The trimmed value of the first header of `buffer` whose name matches
/// `header` ignoring ASCII case.
pub fn parse_header<'a>(buffer: &'a [u8], header: &str) -> (r: Option<&'a str>)
    ensures
        match r {
            Some(v) => header_spec(buffer@, header@) == Some(v@),
            None => header_spec(buffer@, header@) is None,
        },
{
    let request = match utf8_text(buffer) {
        Some(t) => t,
        None => return None,
    };
    let c = chars_of(request);
    let h = chars_of(header);
    match header_bounds(&c, &h) {
        Some((x, y)) => Some(request.substring_char(x, y)),
        None => None,
    }
}

/// The host name in the `Host` header of `buffer`, without a port.
pub fn parse_host(buffer: &[u8]) -> (r: Option<String>)
    ensures
        match r {
            Some(h) => host_spec(buffer@) == Some(h@),
            None => host_spec(buffer@) is None,
        },
{
    match parse_header(buffer, "host") {
        Some(v) => {
            let c = chars_of(v);
            let b = before_chars(&c, ':');
            Some(string_of(&b))
        },
        None => None,
    }
}

/// A character that ends the service name in a path or a referer.
pub open spec fn ends_name(c: char) -> bool {
    c == '/' || c == '?'
}

/// The index of the first `/` or `?` in `s`, or its length.
pub open spec fn name_end(s: Seq<char>) -> int
    decreases s.len(),
{
    if s.len() == 0 || ends_name(s[0]) {
        0
    } else {
        1 + name_end(s.drop_first())
    }
}

proof fn lemma_name_end_unique(s: Seq<char>, k: int)
    requires
        0 <= k <= s.len(),
        forall|j: int| 0 <= j < k ==> !ends_name(#[trigger] s[j]),
        k < s.len() ==> ends_name(s[k]),
    ensures
        name_end(s) == k,
    decreases k,
{
    if k > 0 {
        lemma_name_end_unique(s.drop_first(), k - 1);
    }
}

fn find_name_end(s: &[char], from: usize) -> (r: usize)
    requires
        from <= s.len(),
    ensures
        from <= r <= s.len(),
        name_end(s@.skip(from as int)) == r - from,
{
    let mut i: usize = from;
    while i < s.len() && !(s[i] == '/' || s[i] == '?')
        invariant
            from <= i <= s.len(),
            forall|j: int| from <= j < i ==> !ends_name(#[trigger] s@[j]),
        decreases s.len() - i,
    {
        i = i + 1;
    }
    proof {
        let t = s@.skip(from as int);
        assert forall|j: int| 0 <= j < i - from implies !ends_name(#[trigger] t[j]) by {
            assert(t[j] == s@[j + from]);
        }
        if i < s.len() {
            assert(t[i - from] == s@[i as int]);
        }
        lemma_name_end_unique(t, i - from);
    }
    i
}

/// The request line after moving the first path segment out of the target:
/// `GET /vite/assets/a.js HTTP/1.1` becomes `GET /assets/a.js HTTP/1.1`
/// with service `vite`.
pub open spec fn path_route_spec(w: Seq<Seq<char>>) -> Option<(Seq<char>, Seq<char>)> {
    if w.len() != 3 || !crate::text::starts_with(w[1], '/') {
        None
    } else {
        let target = w[1].drop_first();
        let k = name_end(target);
        let name = target.take(k);
        let rest = target.skip(k);
        if name.len() == 0 {
            None
        } else {
            let new_target = if rest.len() == 0 {
                seq!['/']
            } else if rest[0] == '?' {
                seq!['/'] + rest
            } else {
                rest
            };
            Some((name, w[0] + seq![' '] + new_target + seq![' '] + w[2]))
        }
    }
}

/// For path routing: the service named by the first path segment of the
/// request target, and the request with that segment removed.
pub open spec fn rewrite_spec(buffer: Seq<u8>) -> Option<(Seq<char>, Seq<u8>)> {
    match request_text(buffer) {
        Some(t) => match line_end(t) {
            Some(e) => match path_route_spec(ws_words(t.take(e))) {
                Some((name, line)) => Some((name, encode_utf8(line + t.skip(e)))),
                None => None,
            },
            None => None,
        },
        None => None,
    }
}

/// The bounds of the three words of `c[..e]`, if it has exactly three.
fn three_words(c: &[char], e: usize) -> (r: Option<(usize, usize, usize, usize, usize, usize)>)
    requires
        e <= c.len(),
    ensures
        ({
            let w = ws_words(c@.take(e as int));
            match r {
                Some((a0, b0, a1, b1, a2, b2)) => {
                    &&& w.len() == 3
                    &&& a0 < b0 <= a1 < b1 <= a2 < b2 <= e
                    &&& w[0] == c@.subrange(a0 as int, b0 as int)
                    &&& w[1] == c@.subrange(a1 as int, b1 as int)
                    &&& w[2] == c@.subrange(a2 as int, b2 as int)
                },
                None => w.len() != 3,
            }
        }),
{
    assert(c@.subrange(0, e as int) =~= c@.take(e as int));
    let ghost w = ws_words(c@.take(e as int));
    let (a0, b0) = match next_word(c, 0, e) {
        Some(x) => x,
        None => return None,
    };
    let (a1, b1) = match next_word(c, b0, e) {
        Some(x) => x,
        None => return None,
    };
    let (a2, b2) = match next_word(c, b1, e) {
        Some(x) => x,
        None => return None,
    };
    let more = next_word(c, b2, e);
    proof {
        assert(w.drop_first().drop_first().drop_first().len() == w.len() - 3);
    }
    if more.is_some() {
        return None;
    }
    Some((a0, b0, a1, b1, a2, b2))
}

/// The service name and the rewritten request line for a target
/// `c[a1..b1]`, method `c[a0..b0]` and version `c[a2..b2]`.
fn route_line(c: &[char], a0: usize, b0: usize, a1: usize, b1: usize, a2: usize, b2: usize) -> (r:
    Option<(Vec<char>, Vec<char>)>)
    requires
        a0 < b0 <= a1 < b1 <= a2 < b2 <= c.len(),
    ensures
        ({
            let w = seq![
                c@.subrange(a0 as int, b0 as int),
                c@.subrange(a1 as int, b1 as int),
                c@.subrange(a2 as int, b2 as int),
            ];
            match r {
                Some((name, line)) => path_route_spec(w) == Some((name@, line@)),
                None => path_route_spec(w) is None,
            }
        }),
{
    let ghost w = seq![
        c@.subrange(a0 as int, b0 as int),
        c@.subrange(a1 as int, b1 as int),
        c@.subrange(a2 as int, b2 as int),
    ];
    if c[a1] != '/' {
        return None;
    }
    let target_chars = slice_chars(c, a1 + 1, b1);
    let ghost target = w[1].drop_first();
    assert(target =~= target_chars@);
    let k = find_name_end(&target_chars, 0);
    assert(target_chars@.skip(0) =~= target_chars@);
    if k == 0 {
        return None;
    }
    let name = slice_chars(&target_chars, 0, k);
    assert(name@ =~= target.take(k as int));
    let mut rest = slice_chars(&target_chars, k, target_chars.len());
    assert(rest@ =~= target.skip(k as int));
    let mut line = slice_chars(c, a0, b0);
    line.push(' ');
    if rest.len() == 0 {
        line.push('/');
    } else if rest[0] == '?' {
        line.push('/');
        line.append(&mut rest);
    } else {
        line.append(&mut rest);
    }
    line.push(' ');
    let mut version = slice_chars(c, a2, b2);
    line.append(&mut version);
    proof {
        let rs = target.skip(k as int);
        let nt = if rs.len() == 0 {
            seq!['/']
        } else if rs[0] == '?' {
            seq!['/'] + rs
        } else {
            rs
        };
        assert(line@ =~= w[0] + seq![' '] + nt + seq![' '] + w[2]);
    }
    Some((name, line))
}

/// Removes the first path segment from the request target in `buffer` and
/// returns it as the service name; leaves `buffer` unchanged and returns
/// `None` where the request line is not `METHOD /<name>... VERSION`.
pub fn rewrite_path_route(buffer: &mut Vec<u8>) -> (r: Option<String>)
    ensures
        match rewrite_spec(old(buffer)@) {
            Some((name, bytes)) => r matches Some(n) && n@ == name && final(buffer)@ == bytes,
            None => r is None && final(buffer)@ == old(buffer)@,
        },
{
    let request = match utf8_text(buffer.as_slice()) {
        Some(t) => t,
        None => return None,
    };
    let c = chars_of(request);
    let e = match find_line_end(&c) {
        Some(e) => e,
        None => return None,
    };
    let (a0, b0, a1, b1, a2, b2) = match three_words(&c, e) {
        Some(x) => x,
        None => return None,
    };
    let (name, mut line) = match route_line(&c, a0, b0, a1, b1, a2, b2) {
        Some(x) => x,
        None => return None,
    };
    proof {
        let w = ws_words(c@.take(e as int));
        assert(w =~= seq![
            c@.subrange(a0 as int, b0 as int),
            c@.subrange(a1 as int, b1 as int),
            c@.subrange(a2 as int, b2 as int),
        ]);
    }
    let ghost l0 = line@;
    let mut tail = slice_chars(&c, e, c.len());
    assert(tail@ =~= c@.skip(e as int));
    line.append(&mut tail);
    assert(line@ == l0 + c@.skip(e as int));
    let text = string_of(&line);
    let bytes = text.as_str().as_bytes_vec();
    *buffer = bytes;
    Some(string_of(&name))
}

proof fn lemma_name_end_prefix(s: Seq<char>, j: int)
    requires
        0 <= j < name_end(s),
    ensures
        !ends_name(s[j]),
    decreases s.len(),
{
    lemma_name_end_hit(s);
    if j > 0 {
        lemma_name_end_hit(s.drop_first());
        lemma_name_end_prefix(s.drop_first(), j - 1);
        assert(s.drop_first()[j - 1] == s[j]);
    }
}

proof fn lemma_name_end_hit(s: Seq<char>)
    ensures
        0 <= name_end(s) <= s.len(),
        name_end(s) < s.len() ==> ends_name(s[name_end(s)]),
    decreases s.len(),
{
    if s.len() > 0 && !ends_name(s[0]) {
        lemma_name_end_hit(s.drop_first());
    }
}

/// For path routing: the service named by the first path segment of the
/// `Referer` header, where the referer's host is `route_host`.
pub open spec fn referer_route_spec(buffer: Seq<u8>, route_host: Seq<char>) -> Option<Seq<char>> {
    match header_spec(buffer, "referer"@) {
        None => None,
        Some(referer) => {
            let after = strip_scheme(referer);
            match find(after, '/') {
                None => None,
                Some(i) => {
                    let authority = after.take(i);
                    let path = after.skip(i + 1);
                    let host = before(authority, ':');
                    if !eq_ignore_case(host, route_host) {
                        None
                    } else {
                        let name = path.take(name_end(path));
                        if name.len() == 0 {
                            None
                        } else {
                            Some(name)
                        }
                    }
                },
            }
        },
    }
}

/// The service named by the first path segment of the referer, for a
/// referer on `route_host`.
pub fn route_name_from_referer(buffer: &[u8], route_host: &str) -> (r: Option<String>)
    ensures
        match r {
            Some(n) => referer_route_spec(buffer@, route_host@) == Some(n@),
            None => referer_route_spec(buffer@, route_host@) is None,
        },
{
    let referer = match parse_header(buffer, "referer") {
        Some(v) => v,
        None => return None,
    };
    let c = chars_of(referer);
    let after = strip_scheme_chars(&c);
    let i = match find_char_from(&after, '/', 0) {
        Some(i) => i,
        None => return None,
    };
    proof {
        lemma_find_from(after@, '/', 0);
    }
    let authority = slice_chars(&after, 0, i);
    assert(authority@ =~= after@.take(i as int));
    let host = before_chars(&authority, ':');
    let rh = chars_of(route_host);
    if !chars_eq_ignore_case(&host, &rh) {
        return None;
    }
    let k = find_name_end(&after, i + 1);
    let name = slice_chars(&after, i + 1, k);
    proof {
        let path = after@.skip(i + 1);
        assert(name@ =~= path.take(name_end(path)));
    }
    if name.len() == 0 {
        return None;
    }
    Some(string_of(&name))
}

/// How far a request head has arrived.
#[derive(Debug, Clone, Copy, PartialEq, Eq, Structural)]
pub enum HeadScan {
    /// The blank line that ends the head has arrived within the limit.
    Complete,
    /// The head is, or will be, longer than the limit.
    TooLarge,
    /// More bytes are needed.
    Incomplete,
}

/// The index of the first `\r\n\r\n` in `b` at or after `from`.
pub open spec fn blank_line_from(b: Seq<u8>, from: int) -> Option<int>
    decreases b.len() - from,
{
    if from < 0 || from + 3 >= b.len() {
        None
    } else if b[from] == 13 && b[from + 1] == 10 && b[from + 2] == 13 && b[from + 3] == 10 {
        Some(from)
    } else {
        blank_line_from(b, from + 1)
    }
}

/// The state of the head in `buffer` after a read.
pub open spec fn head_scan_spec(buffer: Seq<u8>) -> HeadScan {
    match blank_line_from(buffer, 0) {
        Some(p) => if p + 4 > MAX_REQUEST_HEADER_BYTES {
            HeadScan::TooLarge
        } else {
            HeadScan::Complete
        },
        None => if buffer.len() >= MAX_REQUEST_HEADER_BYTES {
            HeadScan::TooLarge
        } else {
            HeadScan::Incomplete
        },
    }
}

fn find_blank_line(b: &[u8], from: usize) -> (r: Option<usize>)
    ensures
        match r {
            Some(i) => blank_line_from(b@, from as int) == Some(i as int) && i + 3 < b.len(),
            None => blank_line_from(b@, from as int) is None,
        },
    decreases b.len() - from,
{
    if from >= b.len() || b.len() - from < 4 {
        None
    } else if b[from] == 13 && b[from + 1] == 10 && b[from + 2] == 13 && b[from + 3] == 10 {
        Some(from)
    } else {
        find_blank_line(b, from + 1)
    }
}

/// Decides, after each read, whether the request head in `buffer` is
/// complete, too large or still arriving. A head counts up to and including
/// its blank line; bytes after it (a body) do not count.
pub fn scan_request_head(buffer: &[u8]) -> (r: HeadScan)
    ensures
        r == head_scan_spec(buffer@),
{
    match find_blank_line(buffer, 0) {
        Some(p) => {
            if p + 4 > MAX_REQUEST_HEADER_BYTES {
                HeadScan::TooLarge
            } else {
                HeadScan::Complete
            }
        },
        None => {
            if buffer.len() >= MAX_REQUEST_HEADER_BYTES {
                HeadScan::TooLarge
            } else {
                HeadScan::Incomplete
            }
        },
    }
}

/// The text of an HTTP/1.1 response that closes the connection.
pub open spec fn http_response_spec(status: Seq<char>, content_type: Seq<char>, body: Seq<char>) -> Seq<
    char,
> {
    "HTTP/1.1 "@ + status + "\r\nContent-Type: "@ + content_type + "\r\nContent-Length: "@
        + decimal(byte_len(body)) + "\r\nConnection: close\r\n\r\n"@ + body
}

/// An HTTP/1.1 response with the given status line text, content type and
/// body, its length in bytes, and `Connection: close`.
pub fn http_response(status: &str, content_type: &str, body: &str) -> (r: String)
    ensures
        r@ == http_response_spec(status@, content_type@, body@),
{
    let n = body.as_bytes().len();
    let mut v = chars_of("HTTP/1.1 ");
    let mut a = chars_of(status);
    v.append(&mut a);
    let mut b = chars_of("\r\nContent-Type: ");
    v.append(&mut b);
    let mut c = chars_of(content_type);
    v.append(&mut c);
    let mut d = chars_of("\r\nContent-Length: ");
    v.append(&mut d);
    let mut e = crate::text::decimal_chars(n as u64);
    v.append(&mut e);
    let mut f = chars_of("\r\nConnection: close\r\n\r\n");
    v.append(&mut f);
    let mut g = chars_of(body);
    v.append(&mut g);
    assert(v@ =~= http_response_spec(status@, content_type@, body@));
    string_of(&v)
}

/// The target of the rewritten request: what follows the service name, made
/// to start with `/`.
pub open spec fn target_after_name(rest: Seq<char>) -> Seq<char> {
    if rest.len() == 0 {
        seq!['/']
    } else if rest[0] == '?' {
        seq!['/'] + rest
    } else {
        rest
    }
}

/// The name of a path route ends at the first `/` or `?`: every other
/// character belongs to it.
proof fn lemma_segment_end(name: Seq<char>, rest: Seq<char>)
    requires
        forall|j: int| 0 <= j < name.len() ==> name[j] != '/' && name[j] != '?',
        rest.len() == 0 || rest[0] == '/' || rest[0] == '?',
    ensures
        name_end(name + rest) == name.len(),
        (name + rest).take(name.len() as int) == name,
        (name + rest).skip(name.len() as int) == rest,
{
    let t = name + rest;
    assert forall|j: int| 0 <= j < name.len() implies !ends_name(#[trigger] t[j]) by {
        assert(t[j] == name[j]);
    }
    if rest.len() > 0 {
        assert(t[name.len() as int] == rest[0]);
    }
    lemma_name_end_unique(t, name.len() as int);
    assert(t.take(name.len() as int) =~= name);
    assert(t.skip(name.len() as int) =~= rest);
}

/// Path routing: a request line `M /<name><rest> V`, where `<name>` is not
/// empty and holds no `/` or `?` and `<rest>` is empty or starts with `/` or
/// `?`, names the service `<name>` exactly, and the request is rewritten to
/// `M <rest> V` (with `<rest>` made to start with `/`), the rest of the
/// request unchanged.
pub proof fn lemma_path_route_names_the_first_segment(
    buffer: Seq<u8>,
    method: Seq<char>,
    name: Seq<char>,
    rest: Seq<char>,
    version: Seq<char>,
)
    requires
        name.len() > 0,
        forall|j: int| 0 <= j < name.len() ==> name[j] != '/' && name[j] != '?',
        rest.len() == 0 || rest[0] == '/' || rest[0] == '?',
        request_text(buffer) matches Some(t) && line_end(t) matches Some(e) && ws_words(t.take(e))
            == seq![method, seq!['/'] + name + rest, version],
    ensures
        ({
            let t = request_text(buffer)->0;
            let e = line_end(t)->0;
            rewrite_spec(buffer) == Some(
                (
                    name,
                    encode_utf8(
                        method + seq![' '] + target_after_name(rest) + seq![' '] + version + t.skip(e),
                    ),
                ),
            )
        }),
{
    let target = seq!['/'] + name + rest;
    assert(target.drop_first() =~= name + rest);
    lemma_segment_end(name, rest);
}

/// Path routing by referer: a `Referer` of the form
/// `<scheme>://<host>[:<port>]/<name><rest>`, on the routing host (any case),
/// where `<name>` is not empty and holds no `/` or `?` and `<rest>` is empty
/// or starts with `/` or `?`, names the service `<name>` exactly.
pub proof fn lemma_referer_names_the_first_segment(
    buffer: Seq<u8>,
    route_host: Seq<char>,
    authority: Seq<char>,
    name: Seq<char>,
    rest: Seq<char>,
)
    requires
        name.len() > 0,
        forall|j: int| 0 <= j < name.len() ==> name[j] != '/' && name[j] != '?',
        rest.len() == 0 || rest[0] == '/' || rest[0] == '?',
        forall|j: int| 0 <= j < authority.len() ==> authority[j] != '/',
        eq_ignore_case(before(authority, ':'), route_host),
        header_spec(buffer, "referer"@) matches Some(referer) && strip_scheme(referer) == authority
            + seq!['/'] + name + rest,
    ensures
        referer_route_spec(buffer, route_host) == Some(name),
{
    let after = authority + seq!['/'] + name + rest;
    let i = authority.len() as int;
    assert forall|j: int| 0 <= j < i implies after[j] != '/' by {
        assert(after[j] == authority[j]);
    }
    assert(after[i] == '/');
    lemma_find_from_unique(after, '/', 0, Some(i));
    assert(after.take(i) =~= authority);
    assert(after.skip(i + 1) =~= name + rest);
    lemma_segment_end(name, rest);
}

} // verus!
