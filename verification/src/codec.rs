//! The JSON codec for the task store.
//!
//! The store is a pretty-printed JSON array of objects with the fields
//! `id`, `description` and `status`, in that order.  `json_of` says exactly
//! what the writer produces; `parse_tasks` says exactly what the reader
//! accepts (the writer's output, with freedom in the whitespace between
//! tokens).  `lemma_store_round_trip` proves that reading back a written
//! store yields the same tasks.

use vstd::prelude::*;
use crate::entities::{Status, Task, TaskView, tasks_view, status_name};
use crate::numbers::{is_digit, digit_val, char_of_digit, dec_digits, dec_of_i32, cap_acc,
    digits_run, digits_run_x};
use crate::strutil::push_char;

verus! {

pub open spec fn is_ws(c: char) -> bool {
    c == ' ' || c == '\n' || c == '\t' || c == '\r'
}

/// The position of the first non-whitespace character at or after `i`.
pub open spec fn skip_ws(t: Seq<char>, i: int) -> int
    decreases t.len() - i,
{
    if 0 <= i < t.len() && is_ws(t[i]) {
        skip_ws(t, i + 1)
    } else {
        i
    }
}

pub open spec fn all_ws(w: Seq<char>) -> bool {
    forall|k: int| 0 <= k < w.len() ==> is_ws(w[k])
}

pub open spec fn hex_digit_char(d: int) -> char {
    if d < 10 {
        char_of_digit(d)
    } else {
        ((d + 87) as u8) as char
    }
}

pub open spec fn is_hex(c: char) -> bool {
    is_digit(c) || ('a' <= c && c <= 'f') || ('A' <= c && c <= 'F')
}

pub open spec fn hex_val(c: char) -> int {
    if is_digit(c) {
        digit_val(c)
    } else if 'a' <= c && c <= 'f' {
        (c as u32) - 87
    } else {
        (c as u32) - 55
    }
}

/// How one character of a description appears inside a JSON string.
pub open spec fn esc_char(c: char) -> Seq<char> {
    if c == '"' {
        seq!['\\', '"']
    } else if c == '\\' {
        seq!['\\', '\\']
    } else if (c as u32) < 32 {
        seq!['\\', 'u', '0', '0', hex_digit_char((c as u32) as int / 16), hex_digit_char(
            (c as u32) as int % 16,
        )]
    } else {
        seq![c]
    }
}

/// The body of a JSON string holding the given characters.
pub open spec fn escape(s: Seq<char>) -> Seq<char>
    decreases s.len(),
{
    if s.len() == 0 {
        Seq::empty()
    } else {
        esc_char(s[0]) + escape(s.skip(1))
    }
}

/// A JSON string: the escaped body between quotes.
pub open spec fn quoted(s: Seq<char>) -> Seq<char> {
    seq!['"'] + s + seq!['"']
}

/// The `id` line of a task object.
pub open spec fn line_id(id: i32) -> Seq<char> {
    "\n    "@ + "\"id\""@ + ":"@ + " "@ + dec_of_i32(id as int) + ","@
}

/// The `description` line of a task object.
pub open spec fn line_desc(d: Seq<char>) -> Seq<char> {
    "\n    "@ + "\"description\""@ + ":"@ + " "@ + quoted(escape(d)) + ","@
}

/// The `status` line of a task object, with the indent of the closing brace.
pub open spec fn line_status(st: Status) -> Seq<char> {
    "\n    "@ + "\"status\""@ + ":"@ + " "@ + quoted(status_name(st)) + "\n  "@
}

/// The serialized form of one task object.
pub open spec fn json_of_task(tv: TaskView) -> Seq<char> {
    "{"@ + line_id(tv.id) + line_desc(tv.description) + line_status(tv.status) + "}"@
}

/// The serialized form of the tasks after the first, with the closing bracket.
pub open spec fn json_rest(s: Seq<TaskView>) -> Seq<char>
    decreases s.len(),
{
    if s.len() == 0 {
        "\n]"@
    } else {
        ","@ + "\n  "@ + json_of_task(s[0]) + json_rest(s.skip(1))
    }
}

/// The serialized form of a whole task collection.
pub open spec fn json_of(s: Seq<TaskView>) -> Seq<char> {
    if s.len() == 0 {
        "[]"@
    } else {
        "["@ + "\n  "@ + json_of_task(s[0]) + json_rest(s.skip(1))
    }
}

// ---------------------------------------------------------------------------
// The writer.
// ---------------------------------------------------------------------------

fn hex_digit_char_x(d: u32) -> (r: char)
    requires
        d < 16,
    ensures
        r == hex_digit_char(d as int),
{
    if d < 10 {
        ((d + 48) as u8) as char
    } else {
        ((d + 87) as u8) as char
    }
}

fn push_escaped(out: &mut String, s: &str, i: usize, n: usize)
    requires
        n == s@.len(),
        i <= n,
    ensures
        final(out)@ == old(out)@ + escape(s@.skip(i as int)),
    decreases n - i,
{
    if i == n {
        proof {
            assert(s@.skip(i as int).len() == 0);
            assert(final(out)@ =~= old(out)@ + escape(s@.skip(i as int)));
        }
    } else {
        let c = s.get_char(i);
        let v: u32 = c as u32;
        if c == '"' {
            push_char(out, '\\');
            push_char(out, '"');
        } else if c == '\\' {
            push_char(out, '\\');
            push_char(out, '\\');
        } else if v < 32 {
            push_char(out, '\\');
            push_char(out, 'u');
            push_char(out, '0');
            push_char(out, '0');
            push_char(out, hex_digit_char_x(v / 16));
            push_char(out, hex_digit_char_x(v % 16));
        } else {
            push_char(out, c);
        }
        proof {
            assert(out@ =~= old(out)@ + esc_char(s@[i as int]));
        }
        push_escaped(out, s, i + 1, n);
        proof {
            let tail = s@.skip(i as int);
            assert(tail[0] == s@[i as int]);
            assert(tail.skip(1) =~= s@.skip(i + 1 as int));
            assert(escape(tail) == esc_char(s@[i as int]) + escape(s@.skip(i + 1 as int)));
            assert(final(out)@ =~= old(out)@ + escape(s@.skip(i as int)));
        }
    }
}

fn push_line_id(out: &mut String, id: i32)
    ensures
        final(out)@ == old(out)@ + line_id(id),
{
    out.append("\n    ");
    out.append("\"id\"");
    out.append(":");
    out.append(" ");
    crate::numbers::push_i32_dec(out, id);
    out.append(",");
    proof {
        assert(final(out)@ =~= old(out)@ + line_id(id));
    }
}

fn push_line_desc(out: &mut String, d: &str)
    ensures
        final(out)@ == old(out)@ + line_desc(d@),
{
    out.append("\n    ");
    out.append("\"description\"");
    out.append(":");
    out.append(" ");
    push_char(out, '"');
    let dn: usize = d.unicode_len();
    push_escaped(out, d, 0, dn);
    push_char(out, '"');
    out.append(",");
    proof {
        assert(d@.skip(0) =~= d@);
        assert(final(out)@ =~= old(out)@ + line_desc(d@));
    }
}

fn push_line_status(out: &mut String, st: &Status)
    ensures
        final(out)@ == old(out)@ + line_status(*st),
{
    out.append("\n    ");
    out.append("\"status\"");
    out.append(":");
    out.append(" ");
    push_char(out, '"');
    let nm = st.name();
    out.append(nm.as_str());
    push_char(out, '"');
    out.append("\n  ");
    proof {
        assert(final(out)@ =~= old(out)@ + line_status(*st));
    }
}

fn push_task_json(out: &mut String, t: &Task)
    ensures
        final(out)@ == old(out)@ + json_of_task(t@),
{
    out.append("{");
    push_line_id(out, t.id);
    push_line_desc(out, t.description.as_str());
    push_line_status(out, &t.status);
    out.append("}");
    proof {
        assert(final(out)@ =~= old(out)@ + json_of_task(t@));
    }
}

/// Serializes the whole collection as pretty-printed JSON.
pub fn tasks_to_json(tasks: &Vec<Task>) -> (r: String)
    ensures
        r@ == json_of(tasks_view(tasks@)),
{
    let n: usize = tasks.len();
    if n == 0 {
        let r = String::from_str("[]");
        r
    } else {
        let ghost all = tasks_view(tasks@);
        let mut out = String::new();
        out.append("[");
        out.append("\n  ");
        push_task_json(&mut out, &tasks[0]);
        let mut k: usize = 1;
        proof {
            assert(all[0] == tasks@[0]@);
        }
        while k < n
            invariant
                1 <= k <= n,
                n == tasks@.len(),
                all == tasks_view(tasks@),
                all.len() == n,
                out@ + json_rest(all.skip(k as int)) == json_of(all),
            decreases n - k,
        {
            out.append(",");
            out.append("\n  ");
            push_task_json(&mut out, &tasks[k]);
            proof {
                let rest = all.skip(k as int);
                assert(rest[0] == tasks@[k as int]@);
                assert(rest.skip(1) =~= all.skip(k + 1 as int));
                assert(json_rest(rest) == ","@ + "\n  "@ + json_of_task(all[k as int])
                    + json_rest(all.skip(k + 1 as int)));
                assert(out@ + json_rest(all.skip(k + 1 as int)) =~= json_of(all));
            }
            k = k + 1;
        }
        out.append("\n]");
        proof {
            assert(all.skip(n as int).len() == 0);
            assert(out@ =~= json_of(all));
        }
        out
    }
}

// ---------------------------------------------------------------------------
// The reader: what the parser accepts, stated over the character sequence.
// ---------------------------------------------------------------------------

/// A fixed token at exactly position `i`.
pub open spec fn expect(t: Seq<char>, i: int, lit: Seq<char>) -> Option<int> {
    if 0 <= i && i + lit.len() <= t.len() && t.subrange(i, i + lit.len()) == lit {
        Some(i + lit.len())
    } else {
        None
    }
}

/// A fixed token, with whitespace allowed before it.
pub open spec fn tok(t: Seq<char>, i: int, lit: Seq<char>) -> Option<int> {
    expect(t, skip_ws(t, i), lit)
}

/// A JSON number within the range of an `i32`, with whitespace allowed
/// before it.
pub open spec fn parse_int(t: Seq<char>, i: int) -> Option<(int, int)> {
    let i0 = skip_ws(t, i);
    if !(0 <= i0 < t.len()) {
        None
    } else {
        let neg = t[i0] == '-';
        let i1: int = if neg {
            i0 + 1
        } else {
            i0
        };
        if !(i1 < t.len() && is_digit(t[i1])) {
            None
        } else {
            let (v, end) = digits_run(t, i1, 0);
            let sv: int = if neg {
                -v
            } else {
                v
            };
            if -0x8000_0000 <= sv <= 0x7FFF_FFFF {
                Some((sv, end))
            } else {
                None
            }
        }
    }
}

/// The characters of a JSON string read from after its opening quote,
/// appended to `acc`; ends just past the closing quote.
pub open spec fn parse_strbody(t: Seq<char>, i: int, acc: Seq<char>) -> Option<(Seq<char>, int)>
    decreases t.len() - i,
{
    if !(0 <= i < t.len()) {
        None
    } else if t[i] == '"' {
        Some((acc, i + 1))
    } else if t[i] == '\\' {
        if i + 1 < t.len() {
            let e = t[i + 1];
            if e == '"' {
                parse_strbody(t, i + 2, acc.push('"'))
            } else if e == '\\' {
                parse_strbody(t, i + 2, acc.push('\\'))
            } else if e == '/' {
                parse_strbody(t, i + 2, acc.push('/'))
            } else if e == 'n' {
                parse_strbody(t, i + 2, acc.push('\n'))
            } else if e == 't' {
                parse_strbody(t, i + 2, acc.push('\t'))
            } else if e == 'r' {
                parse_strbody(t, i + 2, acc.push('\r'))
            } else if e == 'b' {
                parse_strbody(t, i + 2, acc.push('\u{8}'))
            } else if e == 'f' {
                parse_strbody(t, i + 2, acc.push('\u{c}'))
            } else if e == 'u' {
                if i + 6 <= t.len() && is_hex(t[i + 2]) && is_hex(t[i + 3]) && is_hex(t[i + 4])
                    && is_hex(t[i + 5]) {
                    let v = hex_val(t[i + 2]) * 4096 + hex_val(t[i + 3]) * 256 + hex_val(
                        t[i + 4],
                    ) * 16 + hex_val(t[i + 5]);
                    if v < 32 {
                        parse_strbody(t, i + 6, acc.push((v as u8) as char))
                    } else {
                        None
                    }
                } else {
                    None
                }
            } else {
                None
            }
        } else {
            None
        }
    } else if (t[i] as u32) < 32 {
        None
    } else {
        parse_strbody(t, i + 1, acc.push(t[i]))
    }
}

/// A whole JSON string, with whitespace allowed before it.
pub open spec fn parse_string(t: Seq<char>, i: int) -> Option<(Seq<char>, int)> {
    let i0 = skip_ws(t, i);
    if 0 <= i0 < t.len() && t[i0] == '"' {
        parse_strbody(t, i0 + 1, Seq::empty())
    } else {
        None
    }
}

/// Exact (case-sensitive) reading of a stored status name.
pub open spec fn status_of_name(n: Seq<char>) -> Option<Status> {
    if n == "HOLD"@ {
        Some(Status::HOLD)
    } else if n == "PROGRESS"@ {
        Some(Status::PROGRESS)
    } else if n == "DONE"@ {
        Some(Status::DONE)
    } else {
        None
    }
}

/// One task object: brace, the three fields in order, closing brace.
pub open spec fn parse_task(t: Seq<char>, i: int) -> Option<(TaskView, int)> {
    match expect(t, i, "{"@) {
        None => None,
        Some(a) => match tok(t, a, "\"id\""@) {
            None => None,
            Some(b) => match tok(t, b, ":"@) {
                None => None,
                Some(c) => match parse_int(t, c) {
                    None => None,
                    Some((idv, d)) => match tok(t, d, ","@) {
                        None => None,
                        Some(e) => match tok(t, e, "\"description\""@) {
                            None => None,
                            Some(f) => match tok(t, f, ":"@) {
                                None => None,
                                Some(g) => match parse_string(t, g) {
                                    None => None,
                                    Some((desc, h)) => match tok(t, h, ","@) {
                                        None => None,
                                        Some(p) => match tok(t, p, "\"status\""@) {
                                            None => None,
                                            Some(q) => match tok(t, q, ":"@) {
                                                None => None,
                                                Some(u) => match parse_string(t, u) {
                                                    None => None,
                                                    Some((nm, v)) => match status_of_name(nm) {
                                                        None => None,
                                                        Some(st) => match tok(t, v, "}"@) {
                                                            None => None,
                                                            Some(z) => Some(
                                                                (
                                                                    TaskView {
                                                                        id: idv as i32,
                                                                        description: desc,
                                                                        status: st,
                                                                    },
                                                                    z,
                                                                ),
                                                            ),
                                                        },
                                                    },
                                                },
                                            },
                                        },
                                    },
                                },
                            },
                        },
                    },
                },
            },
        },
    }
}

/// The task objects of a non-empty array, from the first object through the
/// closing bracket.
pub open spec fn parse_items(t: Seq<char>, i: int, acc: Seq<TaskView>) -> Option<
    (Seq<TaskView>, int),
>
    decreases t.len() - i,
{
    match parse_task(t, skip_ws(t, i)) {
        None => None,
        Some((tv, ni)) => {
            if !(i < ni && ni <= t.len()) {
                None
            } else {
                let j = skip_ws(t, ni);
                if ni <= j && j < t.len() && t[j] == ',' {
                    parse_items(t, j + 1, acc.push(tv))
                } else if 0 <= j < t.len() && t[j] == ']' {
                    Some((acc.push(tv), j + 1))
                } else {
                    None
                }
            }
        },
    }
}

/// A whole store text: one JSON array of task objects, and nothing but
/// whitespace around it.
pub open spec fn parse_tasks(t: Seq<char>) -> Option<Seq<TaskView>> {
    let i0 = skip_ws(t, 0);
    if !(0 <= i0 < t.len() && t[i0] == '[') {
        None
    } else {
        let i1 = skip_ws(t, i0 + 1);
        if 0 <= i1 < t.len() && t[i1] == ']' {
            if skip_ws(t, i1 + 1) == t.len() {
                Some(Seq::empty())
            } else {
                None
            }
        } else {
            match parse_items(t, i0 + 1, Seq::empty()) {
                None => None,
                Some((s, end)) => if skip_ws(t, end) == t.len() {
                    Some(s)
                } else {
                    None
                },
            }
        }
    }
}

/// What loading a present store file yields: an empty collection for
/// whitespace-only text, otherwise whatever the text parses to.
pub open spec fn load_spec(t: Seq<char>) -> Option<Seq<TaskView>> {
    if all_ws(t) {
        Some(Seq::empty())
    } else {
        parse_tasks(t)
    }
}

// ---------------------------------------------------------------------------
// The reader, executable.
// ---------------------------------------------------------------------------

fn skip_ws_x(t: &str, i: usize, n: usize) -> (r: usize)
    requires
        n == t@.len(),
        i <= n,
    ensures
        r as int == skip_ws(t@, i as int),
        i <= r <= n,
    decreases n - i,
{
    if i < n {
        let c = t.get_char(i);
        if c == ' ' || c == '\n' || c == '\t' || c == '\r' {
            skip_ws_x(t, i + 1, n)
        } else {
            i
        }
    } else {
        i
    }
}

fn expect_x(t: &str, i: usize, n: usize, lit: &str) -> (r: Option<usize>)
    requires
        n == t@.len(),
        i <= n,
    ensures
        match r {
            Some(e) => expect(t@, i as int, lit@) == Some(e as int) && i <= e <= n,
            None => expect(t@, i as int, lit@) is None,
        },
{
    let m: usize = lit.unicode_len();
    if n - i < m {
        return None;
    }
    let mut k: usize = 0;
    while k < m
        invariant
            k <= m,
            m == lit@.len(),
            n == t@.len(),
            i <= n,
            n - i >= m,
            forall|x: int| 0 <= x < k ==> t@[i + x] == lit@[x],
        decreases m - k,
    {
        if t.get_char(i + k) != lit.get_char(k) {
            proof {
                let sub = t@.subrange(i as int, i + m as int);
                assert(sub[k as int] != lit@[k as int]);
            }
            return None;
        }
        k = k + 1;
    }
    proof {
        assert(t@.subrange(i as int, i + m as int) =~= lit@);
    }
    Some(i + m)
}

fn tok_x(t: &str, i: usize, n: usize, lit: &str) -> (r: Option<usize>)
    requires
        n == t@.len(),
        i <= n,
    ensures
        match r {
            Some(e) => tok(t@, i as int, lit@) == Some(e as int) && i <= e <= n,
            None => tok(t@, i as int, lit@) is None,
        },
{
    let j = skip_ws_x(t, i, n);
    expect_x(t, j, n, lit)
}

fn parse_int_x(t: &str, i: usize, n: usize) -> (r: Option<(i32, usize)>)
    requires
        n == t@.len(),
        i <= n,
    ensures
        match r {
            Some((v, e)) => parse_int(t@, i as int) == Some((v as int, e as int)) && i <= e <= n,
            None => parse_int(t@, i as int) is None,
        },
{
    let i0 = skip_ws_x(t, i, n);
    if i0 >= n {
        return None;
    }
    let c = t.get_char(i0);
    let neg = c == '-';
    let i1: usize = if neg {
        i0 + 1
    } else {
        i0
    };
    if i1 >= n {
        return None;
    }
    let c1 = t.get_char(i1);
    let v1: u32 = c1 as u32;
    if !(48 <= v1 && v1 <= 57) {
        return None;
    }
    let (v, end) = digits_run_x(t, i1, n, 0);
    if neg {
        if v <= 0x8000_0000 {
            Some(((-v) as i32, end))
        } else {
            None
        }
    } else {
        if v <= 0x7FFF_FFFF {
            Some((v as i32, end))
        } else {
            None
        }
    }
}

fn hex_val_x(c: char) -> (r: Option<u32>)
    ensures
        match r {
            Some(v) => is_hex(c) && v as int == hex_val(c) && v < 16,
            None => !is_hex(c),
        },
{
    let u: u32 = c as u32;
    if 48 <= u && u <= 57 {
        Some(u - 48)
    } else if 97 <= u && u <= 102 {
        Some(u - 87)
    } else if 65 <= u && u <= 70 {
        Some(u - 55)
    } else {
        None
    }
}

fn parse_strbody_x(t: &str, i: usize, n: usize, acc: String) -> (r: Option<(String, usize)>)
    requires
        n == t@.len(),
        i <= n,
    ensures
        match r {
            Some((s, e)) => parse_strbody(t@, i as int, acc@) == Some((s@, e as int)) && i < e
                <= n,
            None => parse_strbody(t@, i as int, acc@) is None,
        },
    decreases n - i,
{
    if i >= n {
        return None;
    }
    let c = t.get_char(i);
    if c == '"' {
        return Some((acc, i + 1));
    }
    if c == '\\' {
        if i + 1 >= n {
            return None;
        }
        let e = t.get_char(i + 1);
        if e == '"' || e == '\\' || e == '/' {
            let mut acc2 = acc;
            push_char(&mut acc2, e);
            return parse_strbody_x(t, i + 2, n, acc2);
        }
        if e == 'n' {
            let mut acc2 = acc;
            push_char(&mut acc2, '\n');
            return parse_strbody_x(t, i + 2, n, acc2);
        }
        if e == 't' {
            let mut acc2 = acc;
            push_char(&mut acc2, '\t');
            return parse_strbody_x(t, i + 2, n, acc2);
        }
        if e == 'r' {
            let mut acc2 = acc;
            push_char(&mut acc2, '\r');
            return parse_strbody_x(t, i + 2, n, acc2);
        }
        if e == 'b' {
            let mut acc2 = acc;
            push_char(&mut acc2, '\u{8}');
            return parse_strbody_x(t, i + 2, n, acc2);
        }
        if e == 'f' {
            let mut acc2 = acc;
            push_char(&mut acc2, '\u{c}');
            return parse_strbody_x(t, i + 2, n, acc2);
        }
        if e == 'u' {
            if n - i < 6 {
                return None;
            }
            let h1 = hex_val_x(t.get_char(i + 2));
            let h2 = hex_val_x(t.get_char(i + 3));
            let h3 = hex_val_x(t.get_char(i + 4));
            let h4 = hex_val_x(t.get_char(i + 5));
            match (h1, h2, h3, h4) {
                (Some(a), Some(b), Some(cc), Some(d)) => {
                    let v: u32 = a * 4096 + b * 256 + cc * 16 + d;
                    if v < 32 {
                        let mut acc2 = acc;
                        push_char(&mut acc2, (v as u8) as char);
                        parse_strbody_x(t, i + 6, n, acc2)
                    } else {
                        None
                    }
                },
                _ => None,
            }
        } else {
            None
        }
    } else {
        let u: u32 = c as u32;
        if u < 32 {
            return None;
        }
        let mut acc2 = acc;
        push_char(&mut acc2, c);
        parse_strbody_x(t, i + 1, n, acc2)
    }
}

fn parse_string_x(t: &str, i: usize, n: usize) -> (r: Option<(String, usize)>)
    requires
        n == t@.len(),
        i <= n,
    ensures
        match r {
            Some((s, e)) => parse_string(t@, i as int) == Some((s@, e as int)) && i < e <= n,
            None => parse_string(t@, i as int) is None,
        },
{
    let i0 = skip_ws_x(t, i, n);
    if i0 < n && t.get_char(i0) == '"' {
        let acc = String::new();
        parse_strbody_x(t, i0 + 1, n, acc)
    } else {
        None
    }
}

fn parse_task_x(t: &str, i: usize, n: usize) -> (r: Option<(Task, usize)>)
    requires
        n == t@.len(),
        i <= n,
    ensures
        match r {
            Some((task, e)) => parse_task(t@, i as int) == Some((task@, e as int)) && i < e <= n,
            None => parse_task(t@, i as int) is None,
        },
{
    proof {
        reveal_strlit("{");
    }
    let a = match expect_x(t, i, n, "{") {
        Some(x) => x,
        None => {
            return None;
        },
    };
    let b = match tok_x(t, a, n, "\"id\"") {
        Some(x) => x,
        None => {
            return None;
        },
    };
    let c = match tok_x(t, b, n, ":") {
        Some(x) => x,
        None => {
            return None;
        },
    };
    let (idv, d) = match parse_int_x(t, c, n) {
        Some(x) => x,
        None => {
            return None;
        },
    };
    let e = match tok_x(t, d, n, ",") {
        Some(x) => x,
        None => {
            return None;
        },
    };
    let f = match tok_x(t, e, n, "\"description\"") {
        Some(x) => x,
        None => {
            return None;
        },
    };
    let g = match tok_x(t, f, n, ":") {
        Some(x) => x,
        None => {
            return None;
        },
    };
    let (desc, h) = match parse_string_x(t, g, n) {
        Some(x) => x,
        None => {
            return None;
        },
    };
    let p = match tok_x(t, h, n, ",") {
        Some(x) => x,
        None => {
            return None;
        },
    };
    let q = match tok_x(t, p, n, "\"status\"") {
        Some(x) => x,
        None => {
            return None;
        },
    };
    let u = match tok_x(t, q, n, ":") {
        Some(x) => x,
        None => {
            return None;
        },
    };
    let (nm, v) = match parse_string_x(t, u, n) {
        Some(x) => x,
        None => {
            return None;
        },
    };
    let st = if crate::strutil::eq_str(nm.as_str(), "HOLD") {
        Status::HOLD
    } else if crate::strutil::eq_str(nm.as_str(), "PROGRESS") {
        Status::PROGRESS
    } else if crate::strutil::eq_str(nm.as_str(), "DONE") {
        Status::DONE
    } else {
        return None;
    };
    let z = match tok_x(t, v, n, "}") {
        Some(x) => x,
        None => {
            return None;
        },
    };
    Some((Task { id: idv, description: desc, status: st }, z))
}

fn parse_items_x(t: &str, i: usize, n: usize, acc: Vec<Task>) -> (r: Option<(Vec<Task>, usize)>)
    requires
        n == t@.len(),
        i <= n,
    ensures
        match r {
            Some((v, e)) => parse_items(t@, i as int, tasks_view(acc@)) == Some(
                (tasks_view(v@), e as int),
            ) && e <= n,
            None => parse_items(t@, i as int, tasks_view(acc@)) is None,
        },
    decreases n - i,
{
    let j0 = skip_ws_x(t, i, n);
    match parse_task_x(t, j0, n) {
        None => None,
        Some((task, ni)) => {
            let j = skip_ws_x(t, ni, n);
            let mut acc2 = acc;
            proof {
                assert(tasks_view(acc2@.push(task)) =~= tasks_view(acc2@).push(task@));
            }
            acc2.push(task);
            if j < n && t.get_char(j) == ',' {
                parse_items_x(t, j + 1, n, acc2)
            } else if j < n && t.get_char(j) == ']' {
                Some((acc2, j + 1))
            } else {
                None
            }
        },
    }
}

fn parse_tasks_x(t: &str) -> (r: Option<Vec<Task>>)
    ensures
        match r {
            Some(v) => parse_tasks(t@) == Some(tasks_view(v@)),
            None => parse_tasks(t@) is None,
        },
{
    let n: usize = t.unicode_len();
    let i0 = skip_ws_x(t, 0, n);
    if i0 >= n || t.get_char(i0) != '[' {
        return None;
    }
    let i1 = skip_ws_x(t, i0 + 1, n);
    if i1 < n && t.get_char(i1) == ']' {
        let e = skip_ws_x(t, i1 + 1, n);
        if e == n {
            let v: Vec<Task> = Vec::new();
            proof {
                assert(tasks_view(v@) =~= Seq::<TaskView>::empty());
            }
            Some(v)
        } else {
            None
        }
    } else {
        let acc: Vec<Task> = Vec::new();
        proof {
            assert(tasks_view(acc@) =~= Seq::<TaskView>::empty());
        }
        match parse_items_x(t, i0 + 1, n, acc) {
            None => None,
            Some((v, end)) => {
                let e2 = skip_ws_x(t, end, n);
                if e2 == n {
                    Some(v)
                } else {
                    None
                }
            },
        }
    }
}

/// Why a present, non-blank store file could not be read.
#[derive(Clone, Copy, PartialEq, Eq, Structural, Debug)]
pub enum StoreError {
    CorruptStore,
}

impl StoreError {
    /// The message reported for this error.
    pub fn message(&self) -> (r: String)
        ensures
            r@ == "Failed to deserialize tasks"@,
    {
        let r = String::from_str("Failed to deserialize tasks");
        r
    }
}

fn all_ws_x(t: &str) -> (r: bool)
    ensures
        r == all_ws(t@),
{
    let n: usize = t.unicode_len();
    let mut i: usize = 0;
    while i < n
        invariant
            i <= n,
            n == t@.len(),
            forall|k: int| 0 <= k < i ==> is_ws(t@[k]),
        decreases n - i,
    {
        let c = t.get_char(i);
        if !(c == ' ' || c == '\n' || c == '\t' || c == '\r') {
            return false;
        }
        i = i + 1;
    }
    true
}

/// Reads a store text into a task collection.
pub fn tasks_from_json(text: &str) -> (r: Result<Vec<Task>, StoreError>)
    ensures
        r is Ok <==> parse_tasks(text@) is Some,
        r matches Ok(v) ==> parse_tasks(text@) == Some(tasks_view(v@)),
        r matches Err(e) ==> e == StoreError::CorruptStore,
{
    match parse_tasks_x(text) {
        Some(v) => Ok(v),
        None => Err(StoreError::CorruptStore),
    }
}

/// Loads the store.  A missing file (`None`) and a blank file both mean the
/// first run: an empty collection, not an error.
pub fn load_tasks(content: Option<&str>) -> (r: Result<Vec<Task>, StoreError>)
    ensures
        match content {
            Option::None => r matches Ok(v) && tasks_view(v@) == Seq::<TaskView>::empty(),
            Option::Some(tx) => {
                &&& (r is Ok <==> load_spec(tx@) is Some)
                &&& (r matches Ok(v) ==> load_spec(tx@) == Some(tasks_view(v@)))
                &&& (r matches Err(e) ==> e == StoreError::CorruptStore)
            },
        },
{
    match content {
        None => {
            let v: Vec<Task> = Vec::new();
            proof {
                assert(tasks_view(v@) =~= Seq::<TaskView>::empty());
            }
            Ok(v)
        },
        Some(tx) => {
            if all_ws_x(tx) {
                let v: Vec<Task> = Vec::new();
                proof {
                    assert(tasks_view(v@) =~= Seq::<TaskView>::empty());
                }
                Ok(v)
            } else {
                tasks_from_json(tx)
            }
        },
    }
}

// ---------------------------------------------------------------------------
// Round trip: reading back what the writer produced yields the same tasks.
// ---------------------------------------------------------------------------

proof fn lemma_peel(t: Seq<char>, i: int, j: int, a: Seq<char>, b: Seq<char>)
    requires
        0 <= i <= j <= t.len(),
        t.subrange(i, j) == a + b,
    ensures
        i + a.len() <= j,
        t.subrange(i, i + a.len()) == a,
        t.subrange(i + a.len(), j) == b,
{
    assert(t.subrange(i, j).len() == j - i);
    assert((a + b).len() == a.len() + b.len());
    let al = a.len() as int;
    assert forall|k: int| 0 <= k < al implies t.subrange(i, i + al)[k] == a[k] by {
        assert(t.subrange(i, i + al)[k] == t[i + k]);
        assert(t.subrange(i, j)[k] == t[i + k]);
        assert((a + b)[k] == a[k]);
    }
    assert(t.subrange(i, i + al) =~= a);
    assert forall|k: int| 0 <= k < b.len() implies t.subrange(i + al, j)[k] == b[k] by {
        assert(t.subrange(i + al, j)[k] == t[i + al + k]);
        assert(t.subrange(i, j)[al + k] == t[i + al + k]);
        assert((a + b)[al + k] == b[k]);
    }
    assert(t.subrange(i + al, j) =~= b);
}

proof fn lemma_skip_ws_over(t: Seq<char>, i: int, w: Seq<char>)
    requires
        0 <= i,
        i + w.len() <= t.len(),
        t.subrange(i, i + w.len()) == w,
        all_ws(w),
        i + w.len() == t.len() || !is_ws(t[i + w.len()]),
    ensures
        skip_ws(t, i) == i + w.len(),
    decreases w.len(),
{
    if w.len() == 0 {
        assert(skip_ws(t, i) == i);
    } else {
        assert(t[i] == w[0]);
        assert(is_ws(t[i]));
        assert(t.subrange(i + 1, i + w.len()) =~= w.skip(1));
        assert(all_ws(w.skip(1)));
        lemma_skip_ws_over(t, i + 1, w.skip(1));
    }
}

proof fn lemma_tok(t: Seq<char>, i: int, j: int, w: Seq<char>, lit: Seq<char>)
    requires
        0 <= i <= j <= t.len(),
        t.subrange(i, j) == w + lit,
        all_ws(w),
        lit.len() >= 1,
        !is_ws(lit[0]),
    ensures
        j == i + w.len() + lit.len(),
        tok(t, i, lit) == Some(j),
{
    lemma_peel(t, i, j, w, lit);
    assert(t[i + w.len()] == lit[0]);
    lemma_skip_ws_over(t, i, w);
    assert(expect(t, i + w.len(), lit) == Some(j));
}

proof fn lemma_ws_lits()
    ensures
        all_ws("\n    "@),
        all_ws(" "@),
        all_ws("\n  "@),
        "\n    "@.len() == 5,
        " "@.len() == 1,
        "\n  "@.len() == 3,
{
    reveal_strlit("\n    ");
    reveal_strlit(" ");
    reveal_strlit("\n  ");
    assert forall|k: int| 0 <= k < "\n    "@.len() implies is_ws("\n    "@[k]) by {
        if k == 0 {
        } else {
        }
    }
    assert forall|k: int| 0 <= k < " "@.len() implies is_ws(" "@[k]) by {}
    assert forall|k: int| 0 <= k < "\n  "@.len() implies is_ws("\n  "@[k]) by {
        if k == 0 {
        } else {
        }
    }
}

spec fn pow_len(n: int) -> int
    decreases n,
{
    if n <= 9 {
        10
    } else {
        10 * pow_len(n / 10)
    }
}

proof fn lemma_pow_len_pos(n: int)
    ensures
        pow_len(n) >= 10,
    decreases n,
{
    if n > 9 {
        lemma_pow_len_pos(n / 10);
    }
}

proof fn lemma_dec_digits_props(n: int)
    requires
        n >= 0,
    ensures
        dec_digits(n).len() >= 1,
        forall|k: int| 0 <= k < dec_digits(n).len() ==> is_digit(#[trigger] dec_digits(n)[k]),
    decreases n,
{
    if n <= 9 {
        assert(is_digit(char_of_digit(n)));
    } else {
        lemma_dec_digits_props(n / 10);
        assert forall|k: int| 0 <= k < dec_digits(n).len() implies is_digit(
            #[trigger] dec_digits(n)[k],
        ) by {
            if k < dec_digits(n / 10).len() {
                assert(dec_digits(n)[k] == dec_digits(n / 10)[k]);
            } else {
                assert(dec_digits(n)[k] == char_of_digit(n % 10));
                assert(is_digit(char_of_digit(n % 10)));
            }
        }
    }
}

proof fn lemma_digits_run_chain(m: int, acc: int, t: Seq<char>, i: int, j: int)
    requires
        0 <= m,
        0 <= acc,
        0 <= i <= j <= t.len(),
        t.subrange(i, j) == dec_digits(m),
        acc * pow_len(m) + m <= 0x1_0000_0000,
    ensures
        digits_run(t, i, acc) == digits_run(t, j, acc * pow_len(m) + m),
    decreases m,
{
    lemma_pow_len_pos(m);
    if m <= 9 {
        assert(dec_digits(m) == seq![char_of_digit(m)]);
        assert(j == i + 1);
        assert(t[i] == t.subrange(i, j)[0]);
        assert(t[i] == char_of_digit(m));
        assert(is_digit(t[i]));
        assert(digit_val(t[i]) == m);
        assert(acc * 10 + m <= 0x1_0000_0000);
        assert(cap_acc(acc * 10 + m) == acc * 10 + m);
        assert(digits_run(t, i, acc) == digits_run(t, i + 1, acc * 10 + m));
    } else {
        let mh = m / 10;
        let d = m % 10;
        lemma_pow_len_pos(mh);
        assert(dec_digits(m) == dec_digits(mh) + seq![char_of_digit(d)]);
        lemma_peel(t, i, j, dec_digits(mh), seq![char_of_digit(d)]);
        let jm = i + dec_digits(mh).len();
        assert(jm == j - 1);
        let accm = acc * pow_len(mh) + mh;
        assert(pow_len(m) == 10 * pow_len(mh));
        assert(accm * 10 + d == acc * pow_len(m) + m) by (nonlinear_arith)
            requires
                accm == acc * pow_len(mh) + mh,
                pow_len(m) == 10 * pow_len(mh),
                mh == m / 10,
                d == m % 10,
                m >= 0,
        ;
        assert(0 <= d <= 9);
        assert(accm * 10 <= accm * 10 + d);
        assert(accm >= 0) by (nonlinear_arith)
            requires
                accm == acc * pow_len(mh) + mh,
                acc >= 0,
                pow_len(mh) >= 10,
                mh >= 0,
        ;
        assert(accm * pow_len(mh) + mh >= accm) by (nonlinear_arith)
            requires
                accm >= 0,
                pow_len(mh) >= 10,
                mh >= 0,
        ;
        assert(accm * 10 + d <= 0x1_0000_0000);
        assert(accm <= 0x1_0000_0000) by (nonlinear_arith)
            requires
                accm * 10 + d <= 0x1_0000_0000,
                accm >= 0,
                d >= 0,
        ;
        lemma_digits_run_chain(mh, acc, t, i, jm);
        assert(t[jm] == t.subrange(jm, j)[0]);
        assert(t[jm] == char_of_digit(d));
        assert(is_digit(t[jm]));
        assert(digit_val(t[jm]) == d);
        assert(cap_acc(accm * 10 + d) == accm * 10 + d);
        assert(digits_run(t, jm, accm) == digits_run(t, j, accm * 10 + d));
    }
}

proof fn lemma_parse_int_ser(idn: i32, t: Seq<char>, i: int, j: int, w: Seq<char>)
    requires
        0 <= i <= j <= t.len(),
        t.subrange(i, j) == w + dec_of_i32(idn as int),
        all_ws(w),
        j < t.len(),
        !is_digit(t[j]),
    ensures
        parse_int(t, i) == Some((idn as int, j)),
{
    let dec = dec_of_i32(idn as int);
    lemma_peel(t, i, j, w, dec);
    let i0 = i + w.len();
    if idn < 0 {
        let m = -(idn as int);
        lemma_dec_digits_props(m);
        assert(dec =~= seq!['-'] + dec_digits(m));
        assert(dec[0] == '-');
        assert(t[i0] == '-');
        assert(!is_ws(t[i0]));
        lemma_skip_ws_over(t, i, w);
        lemma_peel(t, i0, j, seq!['-'], dec_digits(m));
        let i1 = i0 + 1;
        assert(t[i1] == dec_digits(m)[0]);
        assert(is_digit(t[i1]));
        lemma_pow_len_pos(m);
        assert(0 * pow_len(m) + m <= 0x1_0000_0000);
        lemma_digits_run_chain(m, 0, t, i1, j);
        assert(digits_run(t, j, m) == (m, j));
        assert(digits_run(t, i1, 0) == (m, j));
        assert(-0x8000_0000 <= -m <= 0x7FFF_FFFF);
    } else {
        let m = idn as int;
        lemma_dec_digits_props(m);
        assert(dec == dec_digits(m));
        assert(t[i0] == dec_digits(m)[0]);
        assert(is_digit(t[i0]));
        assert(!is_ws(t[i0]));
        lemma_skip_ws_over(t, i, w);
        assert(t[i0] != '-');
        lemma_pow_len_pos(m);
        assert(0 * pow_len(m) + m <= 0x1_0000_0000);
        lemma_digits_run_chain(m, 0, t, i0, j);
        assert(digits_run(t, j, m) == (m, j));
        assert(digits_run(t, i0, 0) == (m, j));
    }
}

proof fn lemma_hex_char(d: int)
    requires
        0 <= d < 16,
    ensures
        is_hex(hex_digit_char(d)),
        hex_val(hex_digit_char(d)) == d,
        hex_digit_char(d) != '"',
{
    if d < 10 {
        assert(is_digit(char_of_digit(d)));
    } else {
        let c = hex_digit_char(d);
        assert(c as u32 == d + 87);
        assert('a' <= c && c <= 'f');
        assert(!is_digit(c));
    }
}

proof fn lemma_parse_strbody_ser(s: Seq<char>, acc: Seq<char>, t: Seq<char>, i: int, j: int)
    requires
        0 <= i <= j <= t.len(),
        t.subrange(i, j) == escape(s) + seq!['"'],
    ensures
        parse_strbody(t, i, acc) == Some((acc + s, j)),
    decreases s.len(),
{
    if s.len() == 0 {
        assert(escape(s) =~= Seq::<char>::empty());
        assert(t.subrange(i, j) =~= seq!['"']);
        assert(j == i + 1);
        assert(t[i] == t.subrange(i, j)[0]);
        assert(t[i] == '"');
        assert(acc + s =~= acc);
    } else {
        let c = s[0];
        let e = esc_char(c);
        assert(escape(s) == e + escape(s.skip(1)));
        assert(t.subrange(i, j) =~= e + (escape(s.skip(1)) + seq!['"']));
        lemma_peel(t, i, j, e, escape(s.skip(1)) + seq!['"']);
        let i2 = i + e.len();
        assert(t.subrange(i2, j) == escape(s.skip(1)) + seq!['"']);
        assert forall|k: int| 0 <= k < e.len() implies t[i + k] == e[k] by {
            assert(t.subrange(i, i2)[k] == t[i + k]);
        }
        if c == '"' {
            assert(t[i + 0] == e[0] && t[i + 1] == e[1]);
            assert(t[i] == '\\' && t[i + 1] == '"');
            lemma_parse_strbody_ser(s.skip(1), acc.push('"'), t, i + 2, j);
            assert(acc.push(c) + s.skip(1) =~= acc + s);
        } else if c == '\\' {
            assert(t[i + 0] == e[0] && t[i + 1] == e[1]);
            assert(t[i] == '\\' && t[i + 1] == '\\');
            lemma_parse_strbody_ser(s.skip(1), acc.push('\\'), t, i + 2, j);
            assert(acc.push(c) + s.skip(1) =~= acc + s);
        } else if (c as u32) < 32 {
            let hv = c as u32 as int;
            assert(t[i + 0] == e[0] && t[i + 1] == e[1] && t[i + 2] == e[2] && t[i + 3] == e[3]
                && t[i + 4] == e[4] && t[i + 5] == e[5]);
            assert(t[i] == '\\' && t[i + 1] == 'u' && t[i + 2] == '0' && t[i + 3] == '0');
            assert(t[i + 4] == hex_digit_char(hv / 16));
            assert(t[i + 5] == hex_digit_char(hv % 16));
            lemma_hex_char(hv / 16);
            lemma_hex_char(hv % 16);
            reveal_strlit("0");
            assert(is_hex('0') && hex_val('0') == 0);
            let v = hex_val(t[i + 2]) * 4096 + hex_val(t[i + 3]) * 256 + hex_val(t[i + 4]) * 16
                + hex_val(t[i + 5]);
            assert(v == (hv / 16) * 16 + hv % 16);
            assert(v == hv);
            assert(0 <= v < 32);
            assert(v as u8 == v);
            assert(c as u32 == v);
            vstd::utf8::char_u32_cast(c, c as u32);
            assert((c as u32) as char == c);
            assert((v as u8) as char == c);
            lemma_parse_strbody_ser(s.skip(1), acc.push(c), t, i + 6, j);
            assert(acc.push(c) + s.skip(1) =~= acc + s);
        } else {
            assert(e == seq![c]);
            assert(t[i + 0] == e[0]);
            assert(t[i] == c);
            lemma_parse_strbody_ser(s.skip(1), acc.push(c), t, i + 1, j);
            assert(acc.push(c) + s.skip(1) =~= acc + s);
        }
    }
}

proof fn lemma_parse_string_ser(s: Seq<char>, t: Seq<char>, i: int, j: int, w: Seq<char>)
    requires
        0 <= i <= j <= t.len(),
        t.subrange(i, j) == w + quoted(escape(s)),
        all_ws(w),
    ensures
        parse_string(t, i) == Some((s, j)),
{
    lemma_peel(t, i, j, w, quoted(escape(s)));
    let i0 = i + w.len();
    assert(quoted(escape(s))[0] == '"');
    assert(t[i0] == t.subrange(i0, j)[0]);
    assert(t[i0] == '"');
    assert(!is_ws('"'));
    lemma_skip_ws_over(t, i, w);
    assert(t.subrange(i0, j) =~= seq!['"'] + (escape(s) + seq!['"']));
    lemma_peel(t, i0, j, seq!['"'], escape(s) + seq!['"']);
    lemma_parse_strbody_ser(s, Seq::empty(), t, i0 + 1, j);
    assert(Seq::<char>::empty() + s =~= s);
}

/// Characters that the escaper leaves alone pass through `escape` unchanged.
proof fn lemma_escape_plain(s: Seq<char>)
    requires
        forall|k: int| 0 <= k < s.len() ==> s[k] != '"' && s[k] != '\\' && (s[k] as u32) >= 32,
    ensures
        escape(s) == s,
    decreases s.len(),
{
    if s.len() == 0 {
        assert(escape(s) =~= s);
    } else {
        assert(esc_char(s[0]) == seq![s[0]]);
        lemma_escape_plain(s.skip(1));
        assert(escape(s) =~= s);
    }
}

proof fn lemma_line_id_parse(id: i32, t: Seq<char>, a: int, e: int)
    requires
        0 <= a <= e <= t.len(),
        t.subrange(a, e) == line_id(id),
    ensures
        tok(t, a, "\"id\""@) == Some(a + 9),
        tok(t, a + 9, ":"@) == Some(a + 10),
        parse_int(t, a + 10) == Some((id as int, e - 1)),
        tok(t, e - 1, ","@) == Some(e),
{
    lemma_ws_lits();
    reveal_strlit("\"id\"");
    reveal_strlit(":");
    reveal_strlit(",");
    let dec = dec_of_i32(id as int);
    assert(line_id(id) =~= ("\n    "@ + "\"id\""@) + (":"@ + (" "@ + (dec + ","@))));
    lemma_peel(t, a, e, "\n    "@ + "\"id\""@, ":"@ + (" "@ + (dec + ","@)));
    assert(t.subrange(a, a + 9) == "\n    "@ + "\"id\""@);
    assert(!is_ws("\"id\""@[0]));
    lemma_tok(t, a, a + 9, "\n    "@, "\"id\""@);
    lemma_peel(t, a + 9, e, ":"@, " "@ + (dec + ","@));
    assert(!is_ws(":"@[0]));
    assert(t.subrange(a + 9, a + 10) =~= Seq::<char>::empty() + ":"@);
    lemma_tok(t, a + 9, a + 10, Seq::empty(), ":"@);
    assert(t.subrange(a + 10, e) =~= (" "@ + dec) + ","@);
    lemma_peel(t, a + 10, e, " "@ + dec, ","@);
    assert(t.subrange(e - 1, e) == ","@);
    assert(","@[0] == ',');
    assert(t[e - 1] == t.subrange(e - 1, e)[0]);
    assert(t[e - 1] == ',');
    assert(!is_digit(','));
    lemma_parse_int_ser(id, t, a + 10, e - 1, " "@);
    assert(!is_ws(','));
    assert(t.subrange(e - 1, e) =~= Seq::<char>::empty() + ","@);
    lemma_tok(t, e - 1, e, Seq::empty(), ","@);
}

proof fn lemma_line_desc_parse(d: Seq<char>, t: Seq<char>, a: int, e: int)
    requires
        0 <= a <= e <= t.len(),
        t.subrange(a, e) == line_desc(d),
    ensures
        tok(t, a, "\"description\""@) == Some(a + 18),
        tok(t, a + 18, ":"@) == Some(a + 19),
        parse_string(t, a + 19) == Some((d, e - 1)),
        tok(t, e - 1, ","@) == Some(e),
{
    lemma_ws_lits();
    reveal_strlit("\"description\"");
    reveal_strlit(":");
    reveal_strlit(",");
    let q = quoted(escape(d));
    assert(line_desc(d) =~= ("\n    "@ + "\"description\""@) + (":"@ + ((" "@ + q) + ","@)));
    lemma_peel(t, a, e, "\n    "@ + "\"description\""@, ":"@ + ((" "@ + q) + ","@));
    assert(!is_ws("\"description\""@[0]));
    lemma_tok(t, a, a + 18, "\n    "@, "\"description\""@);
    lemma_peel(t, a + 18, e, ":"@, (" "@ + q) + ","@);
    assert(!is_ws(":"@[0]));
    assert(t.subrange(a + 18, a + 19) =~= Seq::<char>::empty() + ":"@);
    lemma_tok(t, a + 18, a + 19, Seq::empty(), ":"@);
    lemma_peel(t, a + 19, e, " "@ + q, ","@);
    assert(t.subrange(e - 1, e) == ","@);
    assert(","@[0] == ',');
    assert(t[e - 1] == t.subrange(e - 1, e)[0]);
    assert(t[e - 1] == ',');
    lemma_parse_string_ser(d, t, a + 19, e - 1, " "@);
    assert(!is_ws(','));
    assert(t.subrange(e - 1, e) =~= Seq::<char>::empty() + ","@);
    lemma_tok(t, e - 1, e, Seq::empty(), ","@);
}

proof fn lemma_status_name_plain(st: Status)
    ensures
        escape(status_name(st)) == status_name(st),
        status_of_name(status_name(st)) == Some(st),
{
    reveal_strlit("HOLD");
    reveal_strlit("PROGRESS");
    reveal_strlit("DONE");
    assert("PROGRESS"@.len() == 8);
    assert("HOLD"@.len() == 4);
    assert("DONE"@.len() == 4);
    assert("HOLD"@[0] == 'H' && "DONE"@[0] == 'D');
    assert("HOLD"@ != "DONE"@);
    match st {
        Status::HOLD => {
            assert forall|k: int| 0 <= k < "HOLD"@.len() implies "HOLD"@[k] != '"' && "HOLD"@[k]
                != '\\' && ("HOLD"@[k] as u32) >= 32 by {}
            lemma_escape_plain("HOLD"@);
        },
        Status::PROGRESS => {
            assert forall|k: int|
                0 <= k < "PROGRESS"@.len() implies "PROGRESS"@[k] != '"' && "PROGRESS"@[k]
                != '\\' && ("PROGRESS"@[k] as u32) >= 32 by {}
            lemma_escape_plain("PROGRESS"@);
        },
        Status::DONE => {
            assert forall|k: int| 0 <= k < "DONE"@.len() implies "DONE"@[k] != '"' && "DONE"@[k]
                != '\\' && ("DONE"@[k] as u32) >= 32 by {}
            lemma_escape_plain("DONE"@);
        },
    }
}

proof fn lemma_line_status_parse(st: Status, t: Seq<char>, a: int, e: int)
    requires
        0 <= a <= e <= t.len(),
        t.subrange(a, e) == line_status(st),
    ensures
        tok(t, a, "\"status\""@) == Some(a + 13),
        tok(t, a + 13, ":"@) == Some(a + 14),
        parse_string(t, a + 14) == Some((status_name(st), e - 3)),
        t.subrange(e - 3, e) == "\n  "@,
{
    lemma_ws_lits();
    reveal_strlit("\"status\"");
    reveal_strlit(":");
    let q = quoted(status_name(st));
    assert(line_status(st) =~= ("\n    "@ + "\"status\""@) + (":"@ + ((" "@ + q) + "\n  "@)));
    lemma_peel(t, a, e, "\n    "@ + "\"status\""@, ":"@ + ((" "@ + q) + "\n  "@));
    assert(!is_ws("\"status\""@[0]));
    lemma_tok(t, a, a + 13, "\n    "@, "\"status\""@);
    lemma_peel(t, a + 13, e, ":"@, (" "@ + q) + "\n  "@);
    assert(!is_ws(":"@[0]));
    assert(t.subrange(a + 13, a + 14) =~= Seq::<char>::empty() + ":"@);
    lemma_tok(t, a + 13, a + 14, Seq::empty(), ":"@);
    lemma_peel(t, a + 14, e, " "@ + q, "\n  "@);
    lemma_status_name_plain(st);
    assert(" "@ + q =~= " "@ + quoted(escape(status_name(st))));
    lemma_parse_string_ser(status_name(st), t, a + 14, e - 3, " "@);
}

#[verifier::rlimit(100)]
proof fn lemma_task_parse(tv: TaskView, t: Seq<char>, i: int, j: int)
    requires
        0 <= i <= j <= t.len(),
        t.subrange(i, j) == json_of_task(tv),
    ensures
        parse_task(t, i) == Some((tv, j)),
        i < j,
{
    reveal_strlit("{");
    reveal_strlit("}");
    let l1 = line_id(tv.id);
    let l2 = line_desc(tv.description);
    let l3 = line_status(tv.status);
    assert(json_of_task(tv) =~= "{"@ + (l1 + (l2 + (l3 + "}"@))));
    lemma_peel(t, i, j, "{"@, l1 + (l2 + (l3 + "}"@)));
    assert(t.subrange(i, i + 1) == "{"@);
    assert(expect(t, i, "{"@) == Some(i + 1));
    let a1 = i + 1;
    lemma_peel(t, a1, j, l1, l2 + (l3 + "}"@));
    let a2 = a1 + l1.len();
    lemma_line_id_parse(tv.id, t, a1, a2);
    lemma_peel(t, a2, j, l2, l3 + "}"@);
    let a3 = a2 + l2.len();
    lemma_line_desc_parse(tv.description, t, a2, a3);
    lemma_peel(t, a3, j, l3, "}"@);
    let a4 = a3 + l3.len();
    lemma_line_status_parse(tv.status, t, a3, a4);
    lemma_status_name_plain(tv.status);
    assert(a4 == j - 1);
    assert(t.subrange(a4 - 3, j) =~= "\n  "@ + "}"@);
    lemma_ws_lits();
    assert(!is_ws("}"@[0]));
    lemma_tok(t, a4 - 3, j, "\n  "@, "}"@);
    assert(tok(t, a4 - 3, "}"@) == Some(j));
    assert(((tv.id as int) as i32) == tv.id);
    assert(parse_task(t, i) == Some((tv, j)));
}

proof fn lemma_items_parse(s: Seq<TaskView>, acc: Seq<TaskView>, t: Seq<char>, i: int)
    requires
        s.len() >= 1,
        0 <= i <= t.len(),
        t.subrange(i, t.len() as int) == "\n  "@ + json_of_task(s[0]) + json_rest(s.skip(1)),
    ensures
        parse_items(t, i, acc) == Some((acc + s, t.len() as int)),
        skip_ws(t, i) == i + 3,
        t[i + 3] == '{',
    decreases s.len(),
{
    lemma_ws_lits();
    reveal_strlit(",");
    reveal_strlit("]");
    reveal_strlit("\n]");
    reveal_strlit("{");
    let tl = t.len() as int;
    let body = json_of_task(s[0]);
    let rest = json_rest(s.skip(1));
    assert(t.subrange(i, tl) =~= "\n  "@ + (body + rest));
    lemma_peel(t, i, tl, "\n  "@, body + rest);
    let i0 = i + 3;
    lemma_peel(t, i0, tl, body, rest);
    let m = i0 + body.len();
    lemma_task_parse(s[0], t, i0, m);
    assert(body[0] == '{');
    assert(t[i0] == t.subrange(i0, m)[0]);
    assert(t[i0] == '{');
    assert(!is_ws('{'));
    lemma_skip_ws_over(t, i, "\n  "@);
    assert(skip_ws(t, i) == i0);
    assert(parse_task(t, i0) == Some((s[0], m)));
    assert(i < m && m <= tl);
    if s.len() == 1 {
        assert(s.skip(1).len() == 0);
        assert(rest == "\n]"@);
        assert(t.subrange(m, tl) == "\n]"@);
        assert("\n]"@.len() == 2);
        assert("\n]"@[0] == '\n' && "\n]"@[1] == ']');
        assert(t[m] == t.subrange(m, tl)[0]);
        assert(t[m + 1] == t.subrange(m, tl)[1]);
        assert(is_ws('\n'));
        assert(!is_ws(']'));
        assert(t.subrange(m, m + 1) =~= seq!['\n']);
        assert(all_ws(seq!['\n']));
        lemma_skip_ws_over(t, m, seq!['\n']);
        assert(skip_ws(t, m) == m + 1);
        assert(m + 2 == tl);
        assert(parse_items(t, i, acc) == Some((acc.push(s[0]), m + 2)));
        assert(acc.push(s[0]) =~= acc + s);
    } else {
        assert(s.skip(1).len() >= 1);
        let body2 = json_of_task(s.skip(1)[0]);
        let rest2 = json_rest(s.skip(1).skip(1));
        assert(rest == ","@ + "\n  "@ + body2 + rest2);
        assert(t.subrange(m, tl) =~= ","@ + (("\n  "@ + body2 + rest2)));
        lemma_peel(t, m, tl, ","@, "\n  "@ + body2 + rest2);
        assert(","@[0] == ',');
        assert(t[m] == t.subrange(m, m + 1)[0]);
        assert(t[m] == ',');
        assert(!is_ws(','));
        assert(t.subrange(m, m) =~= Seq::<char>::empty());
        lemma_skip_ws_over(t, m, Seq::empty());
        assert(skip_ws(t, m) == m);
        lemma_items_parse(s.skip(1), acc.push(s[0]), t, m + 1);
        assert(acc.push(s[0]) + s.skip(1) =~= acc + s);
        assert(parse_items(t, i, acc) == Some((acc + s, tl)));
    }
}

/// Round trip: the text the writer produces for any task collection reads
/// back as exactly that collection.
#[verifier::rlimit(100)]
pub proof fn lemma_store_round_trip(ts: Seq<TaskView>)
    ensures
        parse_tasks(json_of(ts)) == Some(ts),
        load_spec(json_of(ts)) == Some(ts),
{
    let t = json_of(ts);
    if ts.len() == 0 {
        reveal_strlit("[]");
        assert(t.len() == 2);
        assert(t[0] == '[' && t[1] == ']');
        assert(!is_ws('['));
        assert(skip_ws(t, 0) == 0);
        assert(!is_ws(']'));
        assert(skip_ws(t, 1) == 1);
        assert(skip_ws(t, 2) == 2);
        assert(parse_tasks(t) == Some(Seq::<TaskView>::empty()));
        assert(Some(Seq::<TaskView>::empty()) == Some(ts)) by {
            assert(Seq::<TaskView>::empty() =~= ts);
        }
        assert(!all_ws(t)) by {
            assert(!is_ws(t[0]));
        }
    } else {
        reveal_strlit("[");
        reveal_strlit("]");
        lemma_ws_lits();
        let tl = t.len() as int;
        assert(t =~= t.subrange(0, tl));
        assert(t.subrange(0, tl) =~= "["@ + ("\n  "@ + json_of_task(ts[0]) + json_rest(
            ts.skip(1),
        )));
        lemma_peel(t, 0, tl, "["@, "\n  "@ + json_of_task(ts[0]) + json_rest(ts.skip(1)));
        assert("["@[0] == '[');
        assert(t[0] == t.subrange(0, 1)[0]);
        assert(t[0] == '[');
        assert(!is_ws('['));
        assert(skip_ws(t, 0) == 0);
        lemma_items_parse(ts, Seq::empty(), t, 1);
        assert(Seq::<TaskView>::empty() + ts =~= ts);
        assert(parse_items(t, 1, Seq::empty()) == Some((ts, tl)));
        assert(skip_ws(t, tl) == tl);
        let i1 = skip_ws(t, 1);
        assert(i1 == 4);
        assert(t[4] == '{');
        assert(t[i1] != ']');
        assert(parse_tasks(t) == Some(ts));
        assert(!all_ws(t)) by {
            assert(!is_ws(t[0]));
        }
    }
}

} // verus!
