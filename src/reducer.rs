//! The response reducer: from the raw text of an HTTP response to the text a
//! user should see.
//!
//! The body after the first blank line is read, in order of preference, as a
//! stream of JSON lines carrying `response` fragments, as one JSON value, and
//! finally as plain text. No input makes it fail.

use vstd::prelude::*;
use crate::json::{parsed, string_member, pretty_of, parse_json, get_member, as_text, render_pretty, opt_view};
use crate::text::{chars_of, is_blank, blank};

verus! {

/// The blank line that ends the headers of an HTTP response.
pub open spec fn separator() -> Seq<char> {
    seq!['\r', '\n', '\r', '\n']
}

/// Whether a separator starts at index `i` of `s`.
pub open spec fn separator_at(s: Seq<char>, i: int) -> bool {
    0 <= i && i + 4 <= s.len() && s.subrange(i, i + 4) == separator()
}

/// The first index at or after `i` at which a separator starts.
pub open spec fn separator_from(s: Seq<char>, i: int) -> Option<int>
    decreases s.len() - i,
{
    if i < 0 || i + 4 > s.len() {
        None
    } else if separator_at(s, i) {
        Some(i)
    } else {
        separator_from(s, i + 1)
    }
}

/// The body of a response: what follows its first separator, if it has one.
pub open spec fn body_of(s: Seq<char>) -> Option<Seq<char>> {
    match separator_from(s, 0) {
        Some(i) => Some(s.subrange(i + 4, s.len() as int)),
        None => None,
    }
}

/// The pieces of `s` between newlines: always one more than its newlines.
pub open spec fn pieces(s: Seq<char>) -> Seq<Seq<char>>
    decreases s.len(),
{
    if s.len() == 0 {
        seq![Seq::<char>::empty()]
    } else {
        let p = pieces(s.drop_last());
        if s.last() == '\n' {
            p.push(Seq::<char>::empty())
        } else {
            p.update(p.len() - 1, p.last().push(s.last()))
        }
    }
}

/// A line ended by a newline loses one carriage return before it.
pub open spec fn strip_cr(l: Seq<char>) -> Seq<char> {
    if l.len() > 0 && l.last() == '\r' {
        l.drop_last()
    } else {
        l
    }
}

/// The lines of `s`, as `str::lines` gives them: pieces ended by a newline
/// lose a trailing carriage return, and a final empty piece is no line.
pub open spec fn lines(s: Seq<char>) -> Seq<Seq<char>> {
    let p = pieces(s);
    let ended = p.drop_last().map_values(|l: Seq<char>| strip_cr(l));
    if p.last().len() == 0 {
        ended
    } else {
        ended.push(p.last())
    }
}

/// The text fragment that one line of a stream carries: the string `response`
/// member of the JSON value on a non-blank line.
pub open spec fn chunk_text(line: Seq<char>) -> Option<Seq<char>> {
    if is_blank(line) {
        None
    } else {
        match parsed(line) {
            Some(v) => string_member(v, "response"@),
            None => None,
        }
    }
}

/// The fragments that the lines carry, in line order; lines without one are skipped.
pub open spec fn fragments(ls: Seq<Seq<char>>) -> Seq<Seq<char>>
    decreases ls.len(),
{
    if ls.len() == 0 {
        Seq::empty()
    } else {
        let f = fragments(ls.drop_last());
        match chunk_text(ls.last()) {
            Some(t) => f.push(t),
            None => f,
        }
    }
}

/// The texts joined with nothing between them.
pub open spec fn concat(ts: Seq<Seq<char>>) -> Seq<char>
    decreases ts.len(),
{
    if ts.len() == 0 {
        Seq::empty()
    } else {
        concat(ts.drop_last()) + ts.last()
    }
}

/// The first step: the fragments of the body's lines, joined, where there is one.
pub open spec fn stream_text(b: Seq<char>) -> Option<Seq<char>> {
    let f = fragments(lines(b));
    if f.len() > 0 {
        Some(concat(f))
    } else {
        None
    }
}

/// The second step: the body read as one JSON value, by its string `response`
/// member, else as its pretty rendering.
pub open spec fn value_text(b: Seq<char>) -> Option<Seq<char>> {
    match parsed(b) {
        Some(v) => match string_member(v, "response"@) {
            Some(t) => Some(t),
            None => pretty_of(v),
        },
        None => None,
    }
}

/// What the user sees of a body: the first step that gives a text, else the body itself.
pub open spec fn body_text(b: Seq<char>) -> Seq<char> {
    match stream_text(b) {
        Some(t) => t,
        None => match value_text(b) {
            Some(t) => t,
            None => b,
        },
    }
}

/// What the user sees of a whole response: the text of its body, or the
/// response unchanged where it has no separator.
pub open spec fn reduced(s: Seq<char>) -> Seq<char> {
    match body_of(s) {
        Some(b) => body_text(b),
        None => s,
    }
}

proof fn lemma_separator_from(s: Seq<char>, i: int)
    ensures
        separator_from(s, i) matches Some(j) ==> i <= j && separator_at(s, j),
    decreases s.len() - i,
{
    if !(i < 0 || i + 4 > s.len()) && !separator_at(s, i) {
        lemma_separator_from(s, i + 1);
    }
}

/// The index of the first separator in `cs`.
fn find_separator(cs: &Vec<char>) -> (r: Option<usize>)
    ensures
        match r {
            Some(i) => separator_from(cs@, 0) == Some(i as int),
            None => separator_from(cs@, 0).is_none(),
        },
{
    let n = cs.len();
    if n < 4 {
        return None;
    }
    let mut i: usize = 0;
    while i <= n - 4
        invariant
            n == cs@.len(),
            4 <= n,
            i <= n - 3,
            separator_from(cs@, 0) == separator_from(cs@, i as int),
        decreases n - i,
    {
        if cs[i] == '\r' && cs[i + 1] == '\n' && cs[i + 2] == '\r' && cs[i + 3] == '\n' {
            assert(cs@.subrange(i as int, i + 4) =~= separator());
            return Some(i);
        }
        assert(!separator_at(cs@, i as int)) by {
            if separator_at(cs@, i as int) {
                let w = cs@.subrange(i as int, i + 4);
                assert(w[0] == cs@[i as int] && w[1] == cs@[i + 1] && w[2] == cs@[i + 2] && w[3] == cs@[i + 3]);
            }
        }
        i = i + 1;
    }
    None
}


proof fn lemma_fragments_push(ls: Seq<Seq<char>>, l: Seq<char>)
    ensures
        fragments(ls.push(l)) == match chunk_text(l) {
            Some(t) => fragments(ls).push(t),
            None => fragments(ls),
        },
{
    assert(ls.push(l).drop_last() =~= ls);
}

proof fn lemma_concat_push(ts: Seq<Seq<char>>, t: Seq<char>)
    ensures
        concat(ts.push(t)) == concat(ts) + t,
{
    assert(ts.push(t).drop_last() =~= ts);
}

proof fn lemma_pieces_step(s: Seq<char>, k: int)
    requires
        0 <= k < s.len(),
    ensures
        pieces(s.take(k + 1)) == ({
            let p = pieces(s.take(k));
            if s[k] == '\n' {
                p.push(Seq::<char>::empty())
            } else {
                p.update(p.len() - 1, p.last().push(s[k]))
            }
        }),
{
    assert(s.take(k + 1).drop_last() =~= s.take(k));
}

/// The fragment that one line carries, as `chunk_text` gives it.
fn chunk_of(line: &str) -> (r: Option<String>)
    ensures
        match r {
            Some(t) => chunk_text(line@) == Some(t@),
            None => chunk_text(line@).is_none(),
        },
{
    if blank(line) {
        return None;
    }
    match parse_json(line) {
        Some(v) => match get_member(&v, "response") {
            Some(m) => match as_text(m) {
                Some(t) => Some(String::from_str(t)),
                None => None,
            },
            None => None,
        },
        None => None,
    }
}

/// The first step of the reducer: the fragments carried by the body's lines,
/// joined in order, or `None` where no line carries one.
pub fn stream_step(body: &str) -> (r: Option<String>)
    ensures
        match r {
            Some(t) => stream_text(body@) == Some(t@),
            None => stream_text(body@).is_none(),
        },
{
    let cs = chars_of(body);
    let n = cs.len();
    let mut acc = String::new();
    let mut found = false;
    let mut start: usize = 0;
    let mut k: usize = 0;
    let ghost mut done: Seq<Seq<char>> = Seq::empty();
    assert(cs@.take(0) =~= Seq::<char>::empty());
    assert(pieces(cs@.take(0)) =~= done.push(cs@.subrange(0, 0)));
    while k < n
        invariant
            n == cs@.len(),
            cs@ == body@,
            start <= k <= n,
            pieces(cs@.take(k as int)) == done.push(cs@.subrange(start as int, k as int)),
            acc@ == concat(fragments(done.map_values(|l: Seq<char>| strip_cr(l)))),
            found == (fragments(done.map_values(|l: Seq<char>| strip_cr(l))).len() > 0),
        decreases n - k,
    {
        proof {
            lemma_pieces_step(cs@, k as int);
        }
        if cs[k] == '\n' {
            let piece = Ghost(cs@.subrange(start as int, k as int));
            let e: usize = if k > start && cs[k - 1] == '\r' { k - 1 } else { k };
            let line = body.substring_char(start, e);
            assert(line@ == strip_cr(piece@)) by {
                if k > start && cs@[k - 1] == '\r' {
                    assert(piece@.drop_last() =~= cs@.subrange(start as int, e as int));
                } else {
                    assert(piece@ =~= cs@.subrange(start as int, e as int));
                }
            }
            let frag = chunk_of(line);
            proof {
                assert(done.push(piece@).map_values(|l: Seq<char>| strip_cr(l))
                    =~= done.map_values(|l: Seq<char>| strip_cr(l)).push(strip_cr(piece@)));
                lemma_fragments_push(done.map_values(|l: Seq<char>| strip_cr(l)), strip_cr(piece@));
            }
            match frag {
                Some(t) => {
                    proof {
                        lemma_concat_push(fragments(done.map_values(|l: Seq<char>| strip_cr(l))), t@);
                    }
                    acc.append(t.as_str());
                    found = true;
                },
                None => {},
            }
            proof {
                done = done.push(piece@);
            }
            start = k + 1;
            assert(cs@.subrange(start as int, k + 1) =~= Seq::<char>::empty());
        } else {
            assert(cs@.subrange(start as int, k as int).push(cs@[k as int])
                =~= cs@.subrange(start as int, k + 1));
        }
        k = k + 1;
    }
    assert(cs@.take(n as int) =~= cs@);
    let ghost ended = done.map_values(|l: Seq<char>| strip_cr(l));
    assert(pieces(body@).drop_last() =~= done);
    if start < n {
        let line = body.substring_char(start, n);
        let frag = chunk_of(line);
        proof {
            lemma_fragments_push(ended, line@);
        }
        match frag {
            Some(t) => {
                proof {
                    lemma_concat_push(fragments(ended), t@);
                }
                acc.append(t.as_str());
                found = true;
            },
            None => {},
        }
        assert(lines(body@) == ended.push(line@));
    } else {
        assert(lines(body@) == ended);
    }
    if found {
        Some(acc)
    } else {
        None
    }
}


/// The second step of the reducer: the body read as one JSON value; its
/// string `response` member where it has one, else its pretty rendering.
/// `None` where the body is no JSON text.
pub fn value_step(body: &str) -> (r: Option<String>)
    ensures
        match r {
            Some(t) => value_text(body@) == Some(t@),
            None => value_text(body@).is_none(),
        },
{
    match parse_json(body) {
        Some(v) => {
            let text = match get_member(&v, "response") {
                Some(m) => as_text(m),
                None => None,
            };
            match text {
                Some(t) => Some(String::from_str(t)),
                None => render_pretty(&v),
            }
        },
        None => None,
    }
}

/// What the user sees of a body: the first of the two steps that gives a
/// text, else the body unchanged.
pub fn format_body(body: &str) -> (r: String)
    ensures
        r@ == body_text(body@),
{
    match stream_step(body) {
        Some(t) => t,
        None => match value_step(body) {
            Some(t) => t,
            None => String::from_str(body),
        },
    }
}

/// The body of a response: what follows its first separator.
pub fn response_body(resp: &str) -> (r: Option<&str>)
    ensures
        opt_view(r) == body_of(resp@),
{
    let cs = chars_of(resp);
    let n = cs.len();
    match find_separator(&cs) {
        Some(i) => {
            proof {
                lemma_separator_from(cs@, 0);
                assert(separator_at(cs@, i as int));
            }
            Some(resp.substring_char(i + 4, n))
        },
        None => None,
    }
}

/// Extracts the text a user should see from a raw HTTP response: the text of
/// its body, or the whole response where no blank line ends its headers.
pub fn format_http_response(resp: &str) -> (r: String)
    ensures
        r@ == reduced(resp@),
{
    match response_body(resp) {
        Some(body) => format_body(body),
        None => String::from_str(resp),
    }
}

/// The lines joined into one text, each followed by a newline.
pub open spec fn joined(ls: Seq<Seq<char>>) -> Seq<char>
    decreases ls.len(),
{
    if ls.len() == 0 {
        Seq::empty()
    } else {
        joined(ls.drop_last()) + ls.last() + seq!['\n']
    }
}

/// A line as a stream holds it: no newline inside, no carriage return at its end.
pub open spec fn plain_line(l: Seq<char>) -> bool {
    &&& forall|i: int| 0 <= i < l.len() ==> #[trigger] l[i] != '\n'
    &&& !(l.len() > 0 && l.last() == '\r')
}

proof fn lemma_pieces_append(s: Seq<char>, t: Seq<char>)
    requires
        forall|i: int| 0 <= i < t.len() ==> #[trigger] t[i] != '\n',
    ensures
        pieces(s + t) == pieces(s).update(pieces(s).len() - 1, pieces(s).last() + t),
    decreases t.len(),
{
    lemma_pieces_nonempty(s);
    if t.len() == 0 {
        assert(s + t =~= s);
        assert(pieces(s).last() + t =~= pieces(s).last());
        assert(pieces(s).update(pieces(s).len() - 1, pieces(s).last()) =~= pieces(s));
    } else {
        let u = t.drop_last();
        assert(u.len() < t.len());
        assert forall|i: int| 0 <= i < u.len() implies #[trigger] u[i] != '\n' by {
            assert(u[i] == t[i]);
        }
        lemma_pieces_append(s, u);
        assert((s + t).drop_last() =~= s + u);
        assert((s + t).last() == t.last());
        assert(pieces(s).last() + u + seq![t.last()] =~= pieces(s).last() + t);
        lemma_pieces_nonempty(s + u);
        let p = pieces(s);
        let q = p.update(p.len() - 1, p.last() + u);
        assert(q.last() == p.last() + u);
        assert(q.last().push(t.last()) =~= p.last() + t);
        assert(q.len() == p.len());
        assert(q.update(q.len() - 1, q.last().push(t.last())) =~= p.update(p.len() - 1, p.last() + t));
    }
}

proof fn lemma_pieces_nonempty(s: Seq<char>)
    ensures
        pieces(s).len() >= 1,
    decreases s.len(),
{
    if s.len() > 0 {
        lemma_pieces_nonempty(s.drop_last());
    }
}

proof fn lemma_pieces_joined(ls: Seq<Seq<char>>)
    requires
        forall|i: int| 0 <= i < ls.len() ==> plain_line(#[trigger] ls[i]),
    ensures
        pieces(joined(ls)) == ls.push(Seq::<char>::empty()),
    decreases ls.len(),
{
    if ls.len() == 0 {
        assert(pieces(Seq::<char>::empty()) =~= ls.push(Seq::<char>::empty()));
    } else {
        let init = ls.drop_last();
        let l = ls.last();
        assert forall|i: int| 0 <= i < init.len() implies plain_line(#[trigger] init[i]) by {
            assert(init[i] == ls[i]);
        }
        lemma_pieces_joined(init);
        assert(plain_line(ls[ls.len() - 1]));
        lemma_pieces_append(joined(init), l);
        let s = joined(init) + l;
        assert(init.push(Seq::<char>::empty()).update(init.len() as int, Seq::<char>::empty() + l)
            =~= ls);
        assert((s + seq!['\n']).drop_last() =~= s);
        assert(joined(ls) == s + seq!['\n']);
    }
}

proof fn lemma_lines_joined(ls: Seq<Seq<char>>)
    requires
        forall|i: int| 0 <= i < ls.len() ==> plain_line(#[trigger] ls[i]),
    ensures
        lines(joined(ls)) == ls,
{
    lemma_pieces_joined(ls);
    let p = pieces(joined(ls));
    assert(p.drop_last() =~= ls);
    assert(ls.map_values(|l: Seq<char>| strip_cr(l)) =~= ls) by {
        assert forall|i: int| 0 <= i < ls.len() implies strip_cr(ls[i]) == ls[i] by {
            assert(plain_line(ls[i]));
        }
    }
}

proof fn lemma_fragments_all(ls: Seq<Seq<char>>, ts: Seq<Seq<char>>)
    requires
        ls.len() == ts.len(),
        forall|i: int| 0 <= i < ls.len() ==> chunk_text(#[trigger] ls[i]) == Some(ts[i]),
    ensures
        fragments(ls) == ts,
    decreases ls.len(),
{
    if ls.len() > 0 {
        let n = ls.len() - 1;
        assert forall|i: int| 0 <= i < n implies chunk_text(#[trigger] ls.drop_last()[i]) == Some(ts.drop_last()[i]) by {
            assert(ls.drop_last()[i] == ls[i]);
        }
        lemma_fragments_all(ls.drop_last(), ts.drop_last());
        assert(chunk_text(ls[n]) == Some(ts[n]));
        assert(ts.drop_last().push(ts.last()) =~= ts);
    }
}

/// Lines of a stream that carry fragments among lines that carry none: the
/// text is the carried fragments joined in line order, the other lines
/// skipped, wherever at least one line carries a fragment.
pub proof fn law_stream_skips_other_lines(resp: Seq<char>, ls: Seq<Seq<char>>)
    requires
        body_of(resp) == Some(joined(ls)),
        forall|i: int| 0 <= i < ls.len() ==> plain_line(#[trigger] ls[i]),
        fragments(ls).len() > 0,
    ensures
        reduced(resp) == concat(fragments(ls)),
{
    lemma_lines_joined(ls);
}

/// A stream of N lines, each carrying a fragment: the text is the N fragments
/// joined in order.
pub proof fn law_stream_concatenates(resp: Seq<char>, ls: Seq<Seq<char>>, ts: Seq<Seq<char>>)
    requires
        body_of(resp) == Some(joined(ls)),
        forall|i: int| 0 <= i < ls.len() ==> plain_line(#[trigger] ls[i]),
        ls.len() == ts.len(),
        ls.len() > 0,
        forall|i: int| 0 <= i < ls.len() ==> chunk_text(#[trigger] ls[i]) == Some(ts[i]),
    ensures
        reduced(resp) == concat(ts),
{
    lemma_fragments_all(ls, ts);
    law_stream_skips_other_lines(resp, ls);
}

/// A body that is one JSON value without a string `response` member, and
/// whose lines carry no fragment: the text is the value's pretty rendering
/// (the body itself, should the rendering fail).
pub proof fn law_value_without_response_is_pretty(resp: Seq<char>, b: Seq<char>, v: serde_json::Value)
    requires
        body_of(resp) == Some(b),
        fragments(lines(b)).len() == 0,
        parsed(b) == Some(v),
        string_member(v, "response"@).is_none(),
    ensures
        reduced(resp) == match pretty_of(v) {
            Some(p) => p,
            None => b,
        },
{
}

/// A response without a separator comes back unchanged.
pub proof fn law_no_separator_is_identity(resp: Seq<char>)
    requires
        forall|i: int| !separator_at(resp, i),
    ensures
        reduced(resp) == resp,
{
    lemma_separator_from(resp, 0);
}

} // verus!
