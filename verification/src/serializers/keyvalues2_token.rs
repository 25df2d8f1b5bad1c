//! Reading KeyValues2 text: its lines, and the tokens that they hold.
//!
//! The text after the file header is read line by line; a line ends after a
//! line feed, and each line must be valid UTF-8 when the reader reaches it.
//! Tokens are quoted strings (with backslash escapes) and the four brackets
//! `{ } [ ]`. Commas and white space separate tokens; `//` and `<` make the
//! reader skip the rest of their line.

use vstd::prelude::*;
use crate::serializers::keyvalues2_error::KeyValues2SerializationError;
use crate::serializers::keyvalues2_text::escape;
use crate::serializing::{lemma_line_end, line_end};
use crate::text::{append_chars, chars_of, is_whitespace, is_ws, lemma_decode_utf8_len, utf8_text};

verus! {

/// The lines of a text: their characters, or `None` for a line that is not
/// valid UTF-8.
pub type KvLines = Seq<Option<Seq<char>>>;

/// The characters of one line, if its bytes are valid UTF-8.
pub open spec fn decoded_line(b: Seq<u8>) -> Option<Seq<char>> {
    if vstd::utf8::valid_utf8(b) {
        Some(vstd::utf8::decode_utf8(b))
    } else {
        None
    }
}

/// The lines of `d`, each with its line feed (the pieces of `BufRead::read_line`).
pub open spec fn kv_lines(d: Seq<u8>) -> KvLines
    decreases d.len(),
{
    if d.len() == 0 {
        seq![]
    } else {
        let q = line_end(d);
        proof {
            lemma_line_end(d);
            lemma_line_end(d.drop_first());
        }
        seq![decoded_line(d.take(q))] + kv_lines(d.skip(q))
    }
}

/// The number of characters of a line.
pub open spec fn line_len(l: Option<Seq<char>>) -> nat {
    match l {
        Some(s) => s.len(),
        None => 0,
    }
}

/// Whether every count that the reader keeps for `lines` fits a `usize`.
pub open spec fn lines_ok(lines: KvLines) -> bool {
    &&& lines.len() < usize::MAX
    &&& forall|i: int| 0 <= i < lines.len() ==> line_len(#[trigger] lines[i]) < usize::MAX
}

/// Where the reader stands: the current line, the column after the last
/// character read, the line's number, and the index of the next line.
pub struct KvCursor {
    pub cur: Seq<char>,
    pub col: int,
    pub line: int,
    pub next: int,
}

/// A token of the text.
pub enum KvToken {
    Text(Seq<char>),
    OpenBrace,
    CloseBrace,
    OpenBracket,
    CloseBracket,
}

/// The result of reading a token: the token, or `None` at the end of the
/// text, with the place after it; or an error.
pub type KvScan = Result<(Option<KvToken>, KvCursor), KeyValues2SerializationError>;

/// The reader before the first line: the header line counts as line 1.
pub open spec fn kv_start() -> KvCursor {
    KvCursor { cur: seq![], col: 0, line: 1, next: 0 }
}

/// A cursor that the reader can go on from.
pub open spec fn cursor_ok(lines: KvLines, c: KvCursor) -> bool {
    &&& 0 <= c.col <= c.cur.len()
    &&& c.cur.len() < usize::MAX
    &&& 0 <= c.next <= lines.len()
    &&& c.line == c.next + 1
}

/// The characters (and line ends) of the lines from `k` on.
pub open spec fn kv_rest(lines: KvLines, k: int) -> nat
    decreases lines.len() - k,
{
    if k < 0 || k >= lines.len() {
        0
    } else {
        line_len(lines[k]) + 1 + kv_rest(lines, k + 1)
    }
}

/// What is left to read after the cursor; each character read lowers it.
pub open spec fn kv_measure(lines: KvLines, c: KvCursor) -> int {
    c.cur.len() + 1 - c.col + kv_rest(lines, c.next)
}

/// Going to the next line.
pub enum KvLineStep {
    End,
    Bad,
    Next(KvCursor),
}

/// The cursor at the start of the next line, if there is one.
pub open spec fn kv_line_step(lines: KvLines, c: KvCursor) -> KvLineStep {
    if c.next < 0 || c.next >= lines.len() {
        KvLineStep::End
    } else {
        match lines[c.next] {
            None => KvLineStep::Bad,
            Some(l) => KvLineStep::Next(KvCursor { cur: l, col: 0, line: c.line + 1, next: c.next + 1 }),
        }
    }
}

/// The character that a backslash before `e` stands for, if `e` is an escape.
pub open spec fn escaped(e: char) -> Option<char> {
    if e == 'n' {
        Some('\n')
    } else if e == 't' {
        Some('\t')
    } else if e == 'r' {
        Some('\r')
    } else if e == 'v' || e == 'b' || e == 'f' || e == 'a' || e == '\\' || e == '?' || e == '\''
        || e == '"' {
        Some(e)
    } else {
        None
    }
}

/// Reads on from `c`; `acc` holds the characters of an open quoted string.
pub open spec fn kv_scan(lines: KvLines, c: KvCursor, acc: Option<Seq<char>>) -> KvScan
    decreases kv_measure(lines, c),
{
    if c.col < 0 || c.col > c.cur.len() || c.next < 0 || c.next > lines.len() {
        Ok((None, c))
    } else if c.col == c.cur.len() {
        let c1 = KvCursor { col: c.col + 1, ..c };
        match kv_line_step(lines, c) {
            KvLineStep::End => match acc {
                Some(_) => Err(
                    KeyValues2SerializationError::UnfinishedQuoteString(c1.line as usize, c1.col as usize),
                ),
                None => Ok((None, c1)),
            },
            KvLineStep::Bad => Err(KeyValues2SerializationError::Io),
            KvLineStep::Next(c2) => kv_scan(lines, c2, acc),
        }
    } else {
        let ch = c.cur[c.col];
        let c1 = KvCursor { col: c.col + 1, ..c };
        match acc {
            Some(s) => {
                if ch == '"' {
                    Ok((Some(KvToken::Text(s)), c1))
                } else if ch == '\\' {
                    if c1.col >= c.cur.len() {
                        Err(KeyValues2SerializationError::UnfinishedEscapeCharacter(c1.line as usize, c1.col as usize))
                    } else {
                        let e = c.cur[c1.col];
                        match escaped(e) {
                            Some(v) => kv_scan(lines, KvCursor { col: c.col + 2, ..c }, Some(s.push(v))),
                            None => if is_ws(e) {
                                Err(KeyValues2SerializationError::UnfinishedEscapeCharacter(c1.line as usize, c1.col as usize))
                            } else {
                                Err(KeyValues2SerializationError::UnknownEscapeCharacter(e, c1.line as usize, c1.col as usize))
                            },
                        }
                    }
                } else {
                    kv_scan(lines, c1, Some(s.push(ch)))
                }
            },
            None => {
                if ch == '/' && !(c1.col < c.cur.len() && c.cur[c1.col] == '/') {
                    Err(KeyValues2SerializationError::UnknownToken('/', c1.line as usize, c1.col as usize))
                } else if ch == '/' || ch == '<' {
                    match kv_line_step(lines, c) {
                        KvLineStep::End => Ok((None, c1)),
                        KvLineStep::Bad => Err(KeyValues2SerializationError::Io),
                        KvLineStep::Next(c2) => kv_scan(lines, c2, None),
                    }
                } else if ch == '"' {
                    kv_scan(lines, c1, Some(seq![]))
                } else if ch == '{' {
                    Ok((Some(KvToken::OpenBrace), c1))
                } else if ch == '}' {
                    Ok((Some(KvToken::CloseBrace), c1))
                } else if ch == '[' {
                    Ok((Some(KvToken::OpenBracket), c1))
                } else if ch == ']' {
                    Ok((Some(KvToken::CloseBracket), c1))
                } else if ch == ',' || is_ws(ch) {
                    kv_scan(lines, c1, None)
                } else {
                    Err(KeyValues2SerializationError::UnknownToken(ch, c1.line as usize, c1.col as usize))
                }
            },
        }
    }
}

/// The next token after `c`. A cursor at the end of its line first moves to
/// the next line; the end of the text gives `None`.
pub open spec fn kv_next_token(lines: KvLines, c: KvCursor) -> KvScan {
    if c.col == c.cur.len() {
        match kv_line_step(lines, c) {
            KvLineStep::End => Ok((None, c)),
            KvLineStep::Bad => Err(KeyValues2SerializationError::Io),
            KvLineStep::Next(c2) => kv_scan(lines, c2, None),
        }
    } else {
        kv_scan(lines, c, None)
    }
}

/// The next line keeps the cursor usable and lowers what is left to read.
proof fn lemma_line_step(lines: KvLines, c: KvCursor)
    requires
        lines_ok(lines),
        cursor_ok(lines, c),
        c.col == c.cur.len(),
    ensures
        kv_line_step(lines, c) matches KvLineStep::Next(c2) ==> cursor_ok(lines, c2)
            && kv_measure(lines, c2) < kv_measure(lines, c),
{
    if 0 <= c.next < lines.len() {
        assert(line_len(lines[c.next]) < usize::MAX);
    }
}

/// A token read from a usable cursor leaves a usable cursor, further on.
pub proof fn lemma_scan_advances(lines: KvLines, c: KvCursor, acc: Option<Seq<char>>)
    requires
        lines_ok(lines),
        cursor_ok(lines, c),
    ensures
        kv_scan(lines, c, acc) matches Ok((Some(_), c2)) ==> cursor_ok(lines, c2)
            && kv_measure(lines, c2) < kv_measure(lines, c),
    decreases kv_measure(lines, c),
{
    if c.col == c.cur.len() {
        lemma_line_step(lines, c);
        if let KvLineStep::Next(c2) = kv_line_step(lines, c) {
            lemma_scan_advances(lines, c2, acc);
        }
    } else {
        let ch = c.cur[c.col];
        let c1 = KvCursor { col: c.col + 1, ..c };
        match acc {
            Some(s) => {
                if ch == '\\' && c1.col < c.cur.len() {
                    let e = c.cur[c1.col];
                    if escaped(e) is Some {
                        lemma_scan_advances(lines, KvCursor { col: c.col + 2, ..c }, Some(s.push(escaped(e)->0)));
                    }
                } else if ch != '"' && ch != '\\' {
                    lemma_scan_advances(lines, c1, Some(s.push(ch)));
                }
            },
            None => {
                if ch == '/' || ch == '<' {
                    let c3 = KvCursor { col: c.cur.len() as int, ..c };
                    lemma_line_step(lines, c3);
                    if let KvLineStep::Next(c2) = kv_line_step(lines, c) {
                        assert(kv_line_step(lines, c3) == kv_line_step(lines, c));
                        lemma_scan_advances(lines, c2, None);
                    }
                } else if ch == '"' {
                    lemma_scan_advances(lines, c1, Some(seq![]));
                } else if ch == ',' || is_ws(ch) {
                    lemma_scan_advances(lines, c1, None);
                }
            },
        }
    }
}

/// A token read from a usable cursor leaves a usable cursor, further on.
pub proof fn lemma_token_advances(lines: KvLines, c: KvCursor)
    requires
        lines_ok(lines),
        cursor_ok(lines, c),
    ensures
        kv_next_token(lines, c) matches Ok((Some(_), c2)) ==> cursor_ok(lines, c2)
            && kv_measure(lines, c2) < kv_measure(lines, c),
{
    if c.col == c.cur.len() {
        lemma_line_step(lines, c);
        if let KvLineStep::Next(c2) = kv_line_step(lines, c) {
            lemma_scan_advances(lines, c2, None);
        }
    } else {
        lemma_scan_advances(lines, c, None);
    }
}

/// No backslash of `s` stands before a backslash, an apostrophe or a quote:
/// the strings whose escaped text reads back unchanged.
pub open spec fn plain_backslashes(s: Seq<char>) -> bool {
    forall|k: int| 0 <= k < s.len() - 1 && s[k] == '\\' ==> !(#[trigger] s[k + 1] == '\\' || s[k + 1] == '\'' || s[k + 1] == '"')
}

/// Inside a quoted string, reading over the escaped text of a string adds
/// that string to what has been read, and stops just after the text.
proof fn lemma_scan_escaped(lines: KvLines, c: KvCursor, acc: Seq<char>, s: Seq<char>)
    requires
        cursor_ok(lines, c),
        plain_backslashes(s),
        c.col + escape(s).len() <= c.cur.len(),
        c.cur.subrange(c.col, c.col + escape(s).len()) == escape(s),
    ensures
        kv_scan(lines, c, Some(acc)) == kv_scan(lines, KvCursor { col: c.col + escape(s).len(), ..c }, Some(acc + s)),
    decreases s.len(),
{
    let e = escape(s);
    let w = c.cur.subrange(c.col, c.col + e.len());
    assert forall|k: int| 0 <= k < e.len() implies c.cur[c.col + k] == #[trigger] w[k] by {}
    if s.len() == 0 {
        assert(acc + s =~= acc);
        assert(KvCursor { col: c.col + escape(s).len(), ..c } == c);
    } else if s[0] == '\\' {
        if s.len() == 1 {
            assert(e =~= seq!['\\', '\\']);
            assert(w[0] == '\\' && w[1] == '\\');
            assert(acc + s =~= acc.push('\\'));
        } else {
            assert(!(s[1] == '\\' || s[1] == '\'' || s[1] == '"'));
            let t = s.skip(2);
            assert(e == seq!['\\', '\\', s[1]] + escape(t));
            assert(w[0] == '\\' && w[1] == '\\' && w[2] == s[1]);
            assert(plain_backslashes(t)) by {
                assert forall|k: int| 0 <= k < t.len() - 1 && t[k] == '\\' implies !(#[trigger] t[k + 1] == '\\' || t[k + 1] == '\'' || t[k + 1] == '"') by {
                    let j = k + 2;
                    assert(t[k] == s[j] && t[k + 1] == s[j + 1]);
                }
            }
            let c3 = KvCursor { col: c.col + 3, ..c };
            assert(c3.cur.subrange(c3.col, c3.col + escape(t).len()) =~= escape(t)) by {
                assert forall|k: int| 0 <= k < escape(t).len() implies #[trigger] c3.cur.subrange(c3.col, c3.col + escape(t).len())[k] == escape(t)[k] by {
                    assert(w[k + 3] == e[k + 3]);
                }
            }
            lemma_scan_escaped(lines, c3, acc.push('\\').push(s[1]), t);
            assert(escape(s).len() == 3 + escape(t).len());
            assert(acc.push('\\').push(s[1]) + t =~= acc + s);
            let c2 = KvCursor { col: c.col + 2, ..c };
            assert(kv_scan(lines, c, Some(acc)) == kv_scan(lines, c2, Some(acc.push('\\'))));
            assert(kv_scan(lines, c2, Some(acc.push('\\'))) == kv_scan(lines, c3, Some(acc.push('\\').push(s[1]))));
        }
    } else {
        let t = s.skip(1);
        assert(plain_backslashes(t)) by {
            assert forall|k: int| 0 <= k < t.len() - 1 && t[k] == '\\' implies !(#[trigger] t[k + 1] == '\\' || t[k + 1] == '\'' || t[k + 1] == '"') by {
                let j = k + 1;
                assert(t[k] == s[j] && t[k + 1] == s[j + 1]);
            }
        }
        let n: int = if s[0] == '\'' || s[0] == '"' { 2 } else { 1 };
        if n == 2 {
            assert(e == seq!['\\', s[0]] + escape(t));
            assert(w[0] == '\\' && w[1] == s[0]);
        } else {
            assert(e == seq![s[0]] + escape(t));
            assert(w[0] == s[0]);
        }
        let c2 = KvCursor { col: c.col + n, ..c };
        assert(c2.cur.subrange(c2.col, c2.col + escape(t).len()) =~= escape(t)) by {
            assert forall|k: int| 0 <= k < escape(t).len() implies #[trigger] c2.cur.subrange(c2.col, c2.col + escape(t).len())[k] == escape(t)[k] by {
                assert(w[k + n] == e[k + n]);
            }
        }
        lemma_scan_escaped(lines, c2, acc.push(s[0]), t);
        assert(acc.push(s[0]) + t =~= acc + s);
        assert(kv_scan(lines, c, Some(acc)) == kv_scan(lines, c2, Some(acc.push(s[0]))));
        assert(escape(s).len() == n + escape(t).len());
    }
}

/// A string that the KeyValues2 writer escapes reads back as itself: inside a
/// quoted string, its escaped text and the closing quote give the string.
pub proof fn law_escaped_string_reads_back(lines: KvLines, c: KvCursor, acc: Seq<char>, s: Seq<char>)
    requires
        cursor_ok(lines, c),
        plain_backslashes(s),
        c.col + escape(s).len() + 1 <= c.cur.len(),
        c.cur.subrange(c.col, c.col + escape(s).len() + 1) == escape(s).push('"'),
    ensures
        kv_scan(lines, c, Some(acc)) == Ok::<(Option<KvToken>, KvCursor), KeyValues2SerializationError>(
            (Some(KvToken::Text(acc + s)), KvCursor { col: c.col + escape(s).len() + 1, ..c }),
        ),
{
    let e = escape(s);
    assert(c.cur.subrange(c.col, c.col + e.len()) =~= e) by {
        assert forall|k: int| 0 <= k < e.len() implies c.cur.subrange(c.col, c.col + e.len())[k] == e[k] by {
            assert(c.cur.subrange(c.col, c.col + e.len() + 1)[k] == e.push('"')[k]);
        }
    }
    assert(c.cur[c.col + e.len()] == '"') by {
        assert(c.cur.subrange(c.col, c.col + e.len() + 1)[e.len() as int] == e.push('"')[e.len() as int]);
    }
    lemma_scan_escaped(lines, c, acc, s);
}

/// The position of the first line feed of `s`.
pub open spec fn first_newline(s: Seq<char>) -> Option<int>
    decreases s.len(),
{
    if s.len() == 0 {
        None
    } else if s[0] == '\n' {
        Some(0)
    } else {
        match first_newline(s.drop_first()) {
            Some(i) => Some(i + 1),
            None => None,
        }
    }
}

proof fn lemma_first_newline(s: Seq<char>)
    ensures
        match first_newline(s) {
            Some(i) => 0 <= i < s.len() && s[i] == '\n',
            None => forall|k: int| 0 <= k < s.len() ==> s[k] != '\n',
        },
    decreases s.len(),
{
    if s.len() > 0 && s[0] != '\n' {
        lemma_first_newline(s.drop_first());
        if first_newline(s.drop_first()) is None {
            assert forall|k: int| 0 <= k < s.len() implies s[k] != '\n' by {
                if k > 0 {
                    assert(s[k] == s.drop_first()[k - 1]);
                }
            }
        }
    }
}

/// Escaping text that does not end with a backslash, then more text, is
/// escaping each in turn.
proof fn lemma_escape_split(p: Seq<char>, q: Seq<char>)
    requires
        p.len() == 0 || p.last() != '\\',
    ensures
        escape(p + q) == escape(p) + escape(q),
    decreases p.len(),
{
    if p.len() == 0 {
        assert(p + q =~= q);
    } else if p[0] == '\\' {
        assert(p.len() >= 2);
        assert((p + q)[0] == p[0] && (p + q)[1] == p[1]);
        assert((p + q).skip(2) =~= p.skip(2) + q);
        lemma_escape_split(p.skip(2), q);
    } else {
        assert((p + q)[0] == p[0]);
        assert((p + q).skip(1) =~= p.skip(1) + q);
        lemma_escape_split(p.skip(1), q);
    }
}

/// Whether the escaped text of `s` and its closing quote stand from the
/// cursor on, laid over the lines as the writer writes them: each line of
/// the text ends after a line feed of `s`, and the next line goes on.
pub open spec fn quoted_from(lines: KvLines, c: KvCursor, s: Seq<char>) -> bool
    decreases s.len(),
{
    match first_newline(s) {
        None => c.col + escape(s).len() + 1 <= c.cur.len() && c.cur.subrange(c.col, c.col + escape(s).len() + 1)
            == escape(s).push('"'),
        Some(i) => {
            let p = s.take(i + 1);
            &&& 0 <= i < s.len()
            &&& c.col + escape(p).len() == c.cur.len()
            &&& c.cur.subrange(c.col, c.cur.len() as int) == escape(p)
            &&& 0 <= c.next < lines.len()
            &&& lines[c.next] is Some
            &&& quoted_from(
                lines,
                KvCursor { cur: lines[c.next]->0, col: 0, line: c.line + 1, next: c.next + 1 },
                s.skip(i + 1),
            )
        },
    }
}

/// A string that the KeyValues2 writer escapes reads back as itself, also
/// when it holds line feeds and so spans several lines: inside a quoted
/// string, its escaped text and the closing quote give the string.
pub proof fn law_quoted_string_reads_back(lines: KvLines, c: KvCursor, acc: Seq<char>, s: Seq<char>)
    requires
        lines_ok(lines),
        cursor_ok(lines, c),
        plain_backslashes(s),
        quoted_from(lines, c, s),
    ensures
        kv_scan(lines, c, Some(acc)) matches Ok((Some(KvToken::Text(t)), _)) && t == acc + s,
    decreases s.len(),
{
    lemma_first_newline(s);
    match first_newline(s) {
        None => {
            law_escaped_string_reads_back(lines, c, acc, s);
        },
        Some(i) => {
            let p = s.take(i + 1);
            let q = s.skip(i + 1);
            assert(s =~= p + q);
            assert(p.last() == '\n');
            lemma_escape_split(p, q);
            assert(plain_backslashes(p)) by {
                assert forall|k: int| 0 <= k < p.len() - 1 && p[k] == '\\' implies !(#[trigger] p[k + 1] == '\\' || p[k + 1] == '\'' || p[k + 1] == '"') by {
                    assert(p[k] == s[k] && p[k + 1] == s[k + 1]);
                }
            }
            assert(plain_backslashes(q)) by {
                assert forall|k: int| 0 <= k < q.len() - 1 && q[k] == '\\' implies !(#[trigger] q[k + 1] == '\\' || q[k + 1] == '\'' || q[k + 1] == '"') by {
                    let j = k + i + 1;
                    assert(q[k] == s[j] && q[k + 1] == s[j + 1]);
                }
            }
            lemma_scan_escaped(lines, c, acc, p);
            let c1 = KvCursor { col: c.col + escape(p).len(), ..c };
            let c2 = KvCursor { cur: lines[c.next]->0, col: 0, line: c.line + 1, next: c.next + 1 };
            assert(line_len(lines[c.next]) < usize::MAX);
            assert(kv_scan(lines, c1, Some(acc + p)) == kv_scan(lines, c2, Some(acc + p)));
            law_quoted_string_reads_back(lines, c2, acc + p, q);
            assert(acc + p + q =~= acc + s);
        },
    }
}

/// Outside quotes, white space before a token is skipped.
pub(crate) proof fn lemma_skip_ws(lines: KvLines, c: KvCursor, w: int)
    requires
        cursor_ok(lines, c),
        0 <= w,
        c.col + w <= c.cur.len(),
        forall|k: int| 0 <= k < w ==> is_ws(#[trigger] c.cur[c.col + k]),
    ensures
        kv_scan(lines, c, None) == kv_scan(lines, KvCursor { col: c.col + w, ..c }, None),
    decreases w,
{
    if w > 0 {
        let c1 = KvCursor { col: c.col + 1, ..c };
        assert(is_ws(c.cur[c.col + 0]));
        assert(kv_scan(lines, c, None) == kv_scan(lines, c1, None));
        assert forall|k: int| 0 <= k < w - 1 implies is_ws(#[trigger] c1.cur[c1.col + k]) by {
            assert(is_ws(c.cur[c.col + (k + 1)]));
        }
        lemma_skip_ws(lines, c1, w - 1);
        assert(KvCursor { col: c1.col + (w - 1), ..c1 } == KvCursor { col: c.col + w, ..c });
    }
}

/// A string that the KeyValues2 writer writes as a quoted token reads back
/// from the reader's next token: after white space, the quote, the escaped
/// text (over as many lines as its line feeds make) and the closing quote
/// give the string.
pub proof fn law_string_token_reads_back(lines: KvLines, c: KvCursor, w: int, s: Seq<char>)
    requires
        lines_ok(lines),
        cursor_ok(lines, c),
        0 <= w,
        c.col + w < c.cur.len(),
        forall|k: int| 0 <= k < w ==> is_ws(#[trigger] c.cur[c.col + k]),
        c.cur[c.col + w] == '"',
        plain_backslashes(s),
        quoted_from(lines, KvCursor { col: c.col + w + 1, ..c }, s),
    ensures
        kv_next_token(lines, c) matches Ok((Some(KvToken::Text(t)), _)) && t == s,
{
    lemma_skip_ws(lines, c, w);
    let cq = KvCursor { col: c.col + w, ..c };
    let c1 = KvCursor { col: c.col + w + 1, ..c };
    assert(kv_scan(lines, cq, None) == kv_scan(lines, c1, Some(Seq::<char>::empty())));
    law_quoted_string_reads_back(lines, c1, Seq::<char>::empty(), s);
    assert(Seq::<char>::empty() + s =~= s);
}

/// The first token of a text whose first line starts with a quoted string
/// that the writer wrote is that string.
pub proof fn law_first_string_token(lines: KvLines, s: Seq<char>)
    requires
        lines_ok(lines),
        lines.len() > 0,
        lines[0] matches Some(l) && l.len() > 0 && l[0] == '"',
        plain_backslashes(s),
        quoted_from(lines, KvCursor { cur: lines[0]->0, col: 1, line: 2, next: 1 }, s),
    ensures
        kv_next_token(lines, kv_start()) matches Ok((Some(KvToken::Text(t)), _)) && t == s,
{
    let c2 = KvCursor { cur: lines[0]->0, col: 0, line: 2, next: 1 };
    assert(line_len(lines[0]) < usize::MAX);
    law_string_token_reads_back(lines, c2, 0, s);
}

/// Text without a backslash, an apostrophe or a quote: its escaped text is
/// itself.
pub open spec fn plain_text(s: Seq<char>) -> bool {
    forall|k: int| 0 <= k < s.len() ==> #[trigger] s[k] != '\\' && s[k] != '\'' && s[k] != '"'
}

pub proof fn lemma_escape_plain(s: Seq<char>)
    requires
        plain_text(s),
    ensures
        escape(s) == s,
    decreases s.len(),
{
    if s.len() > 0 {
        assert(s[0] != '\\' && s[0] != '\'' && s[0] != '"');
        assert(plain_text(s.skip(1))) by {
            assert forall|k: int| 0 <= k < s.skip(1).len() implies #[trigger] s.skip(1)[k] != '\\' && s.skip(1)[k] != '\'' && s.skip(1)[k] != '"' by {
                assert(s.skip(1)[k] == s[k + 1]);
            }
        }
        lemma_escape_plain(s.skip(1));
        assert(seq![s[0]] + s.skip(1) =~= s);
    }
}

/// On one line, white space, a quote, the escaped text of a string and a
/// closing quote are read as that string, and the reader stops just after.
pub proof fn lemma_quoted_token(lines: KvLines, c: KvCursor, w: int, s: Seq<char>)
    requires
        cursor_ok(lines, c),
        plain_backslashes(s),
        0 <= w,
        c.col + w + escape(s).len() + 2 <= c.cur.len(),
        forall|k: int| 0 <= k < w ==> is_ws(#[trigger] c.cur[c.col + k]),
        c.cur[c.col + w] == '"',
        c.cur.subrange(c.col + w + 1, c.col + w + 1 + escape(s).len() + 1) == escape(s).push('"'),
    ensures
        kv_next_token(lines, c) == Ok::<(Option<KvToken>, KvCursor), KeyValues2SerializationError>(
            (Some(KvToken::Text(s)), KvCursor { col: c.col + w + escape(s).len() + 2, ..c }),
        ),
{
    lemma_skip_ws(lines, c, w);
    let cq = KvCursor { col: c.col + w, ..c };
    let c1 = KvCursor { col: c.col + w + 1, ..c };
    assert(kv_scan(lines, cq, None) == kv_scan(lines, c1, Some(Seq::<char>::empty())));
    law_escaped_string_reads_back(lines, c1, Seq::<char>::empty(), s);
    assert(Seq::<char>::empty() + s =~= s);
}

// ---------------------------------------------------------------------------
// Splitting the text into lines
// ---------------------------------------------------------------------------

/// The lines held as vectors, viewed as characters.
pub open spec fn lines_view(v: Seq<Option<Vec<char>>>) -> KvLines {
    v.map_values(|o: Option<Vec<char>>| match o {
        Some(l) => Some(l@),
        None => None,
    })
}

/// The end of the line that starts at `p`: just after its line feed, or the
/// end of `d`.
fn line_stop(d: &[u8], p: usize) -> (q: usize)
    requires
        p <= d@.len(),
    ensures
        q == p + line_end(d@.skip(p as int)),
{
    let mut i: usize = p;
    while i < d.len() && d[i] != 10
        invariant
            p <= i <= d@.len(),
            line_end(d@.skip(p as int)) == (i - p) + line_end(d@.skip(i as int)),
        decreases d@.len() - i,
    {
        assert(d@.skip(i as int).drop_first() =~= d@.skip(i + 1));
        i = i + 1;
    }
    if i < d.len() {
        i + 1
    } else {
        i
    }
}

/// Splits `d` into lines, each with its line feed, decoding each as UTF-8.
pub fn split_lines(d: &[u8]) -> (r: Vec<Option<Vec<char>>>)
    requires
        d@.len() < usize::MAX,
    ensures
        lines_view(r@) == kv_lines(d@),
        lines_ok(lines_view(r@)),
{
    let mut out: Vec<Option<Vec<char>>> = Vec::new();
    let mut p: usize = 0;
    assert(d@.skip(0) =~= d@);
    while p < d.len()
        invariant
            p <= d@.len() < usize::MAX,
            kv_lines(d@) == lines_view(out@) + kv_lines(d@.skip(p as int)),
            out@.len() <= p,
            forall|i: int| 0 <= i < out@.len() ==> line_len(#[trigger] lines_view(out@)[i]) <= d@.len(),
        decreases d@.len() - p,
    {
        let q = line_stop(d, p);
        let ghost rest = d@.skip(p as int);
        proof {
            lemma_line_end(rest);
            lemma_line_end(rest.drop_first());
        }
        let text = utf8_text(d, p, q);
        let line = match text {
            Some(s) => Some(chars_of(s.as_str())),
            None => None,
        };
        proof {
            assert(rest.take(q - p) =~= d@.subrange(p as int, q as int));
            assert(rest.skip(q - p) =~= d@.skip(q as int));
            if line is Some {
                lemma_decode_utf8_len(d@.subrange(p as int, q as int));
            }
        }
        let ghost before = out@;
        out.push(line);
        proof {
            assert(lines_view(out@) =~= lines_view(before).push(decoded_line(rest.take(q - p))));
            assert(lines_view(out@) + kv_lines(d@.skip(q as int)) =~= lines_view(before) + kv_lines(rest));
            assert forall|i: int| 0 <= i < out@.len() implies line_len(#[trigger] lines_view(out@)[i]) <= d@.len() by {
                if i < before.len() {
                    assert(lines_view(out@)[i] == lines_view(before)[i]);
                }
            }
        }
        p = q;
    }
    assert(d@.skip(p as int) =~= Seq::<u8>::empty());
    assert(kv_lines(d@) =~= lines_view(out@) + Seq::<Option<Seq<char>>>::empty());
    out
}

// ---------------------------------------------------------------------------
// The token reader
// ---------------------------------------------------------------------------

/// A token as the reader hands it out.
pub enum ReadToken {
    Text(Vec<char>),
    OpenBrace,
    CloseBrace,
    OpenBracket,
    CloseBracket,
}

impl View for ReadToken {
    type V = KvToken;

    open spec fn view(&self) -> KvToken {
        match self {
            ReadToken::Text(s) => KvToken::Text(s@),
            ReadToken::OpenBrace => KvToken::OpenBrace,
            ReadToken::CloseBrace => KvToken::CloseBrace,
            ReadToken::OpenBracket => KvToken::OpenBracket,
            ReadToken::CloseBracket => KvToken::CloseBracket,
        }
    }
}

/// An optional token, viewed.
pub open spec fn opt_token(t: Option<ReadToken>) -> Option<KvToken> {
    match t {
        Some(x) => Some(x@),
        None => None,
    }
}

/// Reads tokens from the lines of a text.
pub struct StringReader {
    pub cur: Vec<char>,
    pub col: usize,
    pub line: usize,
    pub next: usize,
}

impl View for StringReader {
    type V = KvCursor;

    open spec fn view(&self) -> KvCursor {
        KvCursor { cur: self.cur@, col: self.col as int, line: self.line as int, next: self.next as int }
    }
}

impl StringReader {
    /// A reader before the first line.
    pub fn new() -> (r: StringReader)
        ensures
            r@ == kv_start(),
    {
        StringReader { cur: Vec::new(), col: 0, line: 1, next: 0 }
    }

    /// Moves to the start of the next line, whose characters are `l`.
    fn start_line(&mut self, l: &Vec<char>)
        requires
            old(self).line == old(self).next + 1,
            old(self).next + 1 < usize::MAX,
        ensures
            final(self)@ == (KvCursor { cur: l@, col: 0, line: old(self).line + 1, next: old(self).next + 1 }),
    {
        let mut v: Vec<char> = Vec::new();
        append_chars(&mut v, l.as_slice());
        self.cur = v;
        self.col = 0;
        self.line = self.line + 1;
        self.next = self.next + 1;
    }

    /// Reads the next token (`kv_next_token`). The line is read as
    /// characters and columns count characters, so a line with non-ASCII
    /// text reads the same as one without.
    pub fn next_token(&mut self, lines: &Vec<Option<Vec<char>>>) -> (r: Result<Option<ReadToken>, KeyValues2SerializationError>)
        requires
            lines_ok(lines_view(lines@)),
            cursor_ok(lines_view(lines@), old(self)@),
        ensures
            match kv_next_token(lines_view(lines@), old(self)@) {
                Ok((t, c)) => r matches Ok(t2) && opt_token(t2) == t && final(self)@ == c,
                Err(e) => r == Err::<Option<ReadToken>, KeyValues2SerializationError>(e),
            },
    {
        let ghost ls = lines_view(lines@);
        let ghost c0 = self@;
        if self.col == self.cur.len() {
            if self.next >= lines.len() {
                return Ok(None);
            }
            proof {
                assert(ls[self.next as int] == match lines@[self.next as int] {
                    Some(l) => Some(l@),
                    None => None::<Seq<char>>,
                });
            }
            match &lines[self.next] {
                None => {
                    return Err(KeyValues2SerializationError::Io);
                },
                Some(l) => {
                    proof {
                        assert(line_len(ls[self.next as int]) < usize::MAX);
                    }
                    self.start_line(l);
                },
            }
        }
        let mut in_text = false;
        let mut text: Vec<char> = Vec::new();
        loop
            invariant
                ls == lines_view(lines@),
                c0 == old(self)@,
                !in_text ==> text@ == Seq::<char>::empty(),
                lines_ok(ls),
                cursor_ok(ls, self@),
                kv_next_token(ls, c0) == kv_scan(ls, self@, if in_text { Some(text@) } else { None }),
            decreases kv_measure(ls, self@),
        {
            let ghost c = self@;
            let ghost acc = if in_text { Some(text@) } else { None::<Seq<char>> };
            if self.col == self.cur.len() {
                if self.next >= lines.len() {
                    assert(kv_line_step(ls, c) is End);
                    assert(kv_scan(ls, c, acc) == (match acc {
                        Some(_) => Err(
                            KeyValues2SerializationError::UnfinishedQuoteString(c.line as usize, (c.col + 1) as usize),
                        ),
                        None => Ok((None::<KvToken>, KvCursor { col: c.col + 1, ..c })),
                    }));
                    self.col = self.col + 1;
                    if in_text {
                        return Err(KeyValues2SerializationError::UnfinishedQuoteString(self.line, self.col));
                    }
                    return Ok(None);
                }
                proof {
                    assert(ls[self.next as int] == match lines@[self.next as int] {
                        Some(l) => Some(l@),
                        None => None::<Seq<char>>,
                    });
                }
                match &lines[self.next] {
                    None => {
                        return Err(KeyValues2SerializationError::Io);
                    },
                    Some(l) => {
                        proof {
                            assert(line_len(ls[self.next as int]) < usize::MAX);
                        }
                        self.start_line(l);
                    },
                }
            } else {
                let ch = self.cur[self.col];
                self.col = self.col + 1;
                if in_text {
                    if ch == '"' {
                        return Ok(Some(ReadToken::Text(text)));
                    } else if ch == '\\' {
                        if self.col >= self.cur.len() {
                            return Err(KeyValues2SerializationError::UnfinishedEscapeCharacter(self.line, self.col));
                        }
                        let e = self.cur[self.col];
                        let v = if e == 'n' {
                            '\n'
                        } else if e == 't' {
                            '\t'
                        } else if e == 'r' {
                            '\r'
                        } else if e == 'v' || e == 'b' || e == 'f' || e == 'a' || e == '\\' || e == '?'
                            || e == '\'' || e == '"' {
                            e
                        } else if is_whitespace(e) {
                            return Err(KeyValues2SerializationError::UnfinishedEscapeCharacter(self.line, self.col));
                        } else {
                            return Err(KeyValues2SerializationError::UnknownEscapeCharacter(e, self.line, self.col));
                        };
                        text.push(v);
                        self.col = self.col + 1;
                    } else {
                        text.push(ch);
                    }
                } else if ch == '/' && !(self.col < self.cur.len() && self.cur[self.col] == '/') {
                    assert(kv_scan(ls, c, acc) == Err::<(Option<KvToken>, KvCursor), KeyValues2SerializationError>(
                        KeyValues2SerializationError::UnknownToken('/', c.line as usize, (c.col + 1) as usize)));
                    return Err(KeyValues2SerializationError::UnknownToken('/', self.line, self.col));
                } else if ch == '/' || ch == '<' {
                    if self.next >= lines.len() {
                        return Ok(None);
                    }
                    proof {
                        assert(ls[self.next as int] == match lines@[self.next as int] {
                            Some(l) => Some(l@),
                            None => None::<Seq<char>>,
                        });
                    }
                    match &lines[self.next] {
                        None => {
                            return Err(KeyValues2SerializationError::Io);
                        },
                        Some(l) => {
                            proof {
                                assert(line_len(ls[self.next as int]) < usize::MAX);
                                let c3 = KvCursor { col: c.cur.len() as int, ..c };
                                lemma_line_step(ls, c3);
                            }
                            self.start_line(l);
                        },
                    }
                } else if ch == '"' {
                    in_text = true;
                } else if ch == '{' {
                    return Ok(Some(ReadToken::OpenBrace));
                } else if ch == '}' {
                    return Ok(Some(ReadToken::CloseBrace));
                } else if ch == '[' {
                    return Ok(Some(ReadToken::OpenBracket));
                } else if ch == ']' {
                    return Ok(Some(ReadToken::CloseBracket));
                } else if ch == ',' || is_whitespace(ch) {
                } else {
                    return Err(KeyValues2SerializationError::UnknownToken(ch, self.line, self.col));
                }
            }
        }
    }
}

} // verus!
