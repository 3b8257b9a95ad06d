//! The canonical text form of the task store: a pretty-printed JSON document
//! with one top-level object holding a `"tasks"` array of task objects, each
//! with a `"description"` string and a `"done"` boolean.
//!
//! The format is defined twice over sequences of characters: a serializer
//! (`ser_store`) and a parser (`p_store`). The executable functions implement
//! exactly those definitions, and `lemma_save_load_round_trip` proves that
//! parsing a serialized store gives the store back.

use vstd::prelude::*;

use crate::store::Task;
use crate::store::TaskView;
use crate::store::task_views;

verus! {

// ---------------------------------------------------------------------------
// The fixed fragments of the document.
// ---------------------------------------------------------------------------

/// Everything before the first element of the `"tasks"` array.
pub open spec fn json_header() -> Seq<char> {
    seq!['{', '\n', ' ', ' ', '"', 't', 'a', 's', 'k', 's', '"', ':', ' ', '[']
}

/// Closes an empty `"tasks"` array and the document.
pub open spec fn json_empty_tail() -> Seq<char> {
    seq![']', '\n', '}']
}

/// Closes a non-empty `"tasks"` array and the document.
pub open spec fn json_footer() -> Seq<char> {
    seq!['\n', ' ', ' ', ']', '\n', '}']
}

/// Opens one task object, up to and including the opening quote of the
/// description string.
pub open spec fn task_open() -> Seq<char> {
    seq![
        '\n', ' ', ' ', ' ', ' ', '{', '\n', ' ', ' ', ' ', ' ', ' ', ' ', '"', 'd', 'e', 's',
        'c', 'r', 'i', 'p', 't', 'i', 'o', 'n', '"', ':', ' ', '"',
    ]
}

/// Between the closing quote of the description and the done value.
pub open spec fn task_mid() -> Seq<char> {
    seq![',', '\n', ' ', ' ', ' ', ' ', ' ', ' ', '"', 'd', 'o', 'n', 'e', '"', ':', ' ']
}

/// Closes one task object.
pub open spec fn task_close() -> Seq<char> {
    seq!['\n', ' ', ' ', ' ', ' ', '}']
}

pub open spec fn lit_true() -> Seq<char> {
    seq!['t', 'r', 'u', 'e']
}

pub open spec fn lit_false() -> Seq<char> {
    seq!['f', 'a', 'l', 's', 'e']
}

// ---------------------------------------------------------------------------
// Serialization, as a mathematical function.
// ---------------------------------------------------------------------------

/// The hexadecimal digit for `n`, lower case.
pub open spec fn hex_digit(n: int) -> char {
    if n == 0 {
        '0'
    } else if n == 1 {
        '1'
    } else if n == 2 {
        '2'
    } else if n == 3 {
        '3'
    } else if n == 4 {
        '4'
    } else if n == 5 {
        '5'
    } else if n == 6 {
        '6'
    } else if n == 7 {
        '7'
    } else if n == 8 {
        '8'
    } else if n == 9 {
        '9'
    } else if n == 10 {
        'a'
    } else if n == 11 {
        'b'
    } else if n == 12 {
        'c'
    } else if n == 13 {
        'd'
    } else if n == 14 {
        'e'
    } else {
        'f'
    }
}

/// How one character of a description appears inside the JSON string:
/// quote and backslash get a backslash escape, control characters become
/// `\u00xx`, and everything else stands for itself.
pub open spec fn esc_char(c: char) -> Seq<char> {
    if c == '"' {
        seq!['\\', '"']
    } else if c == '\\' {
        seq!['\\', '\\']
    } else if (c as u32) < 32 {
        seq!['\\', 'u', '0', '0', hex_digit((c as u32) as int / 16), hex_digit(
            (c as u32) as int % 16,
        )]
    } else {
        seq![c]
    }
}

/// The body of the JSON string holding a description.
pub open spec fn esc_str(s: Seq<char>) -> Seq<char>
    decreases s.len(),
{
    if s.len() == 0 {
        Seq::empty()
    } else {
        esc_char(s[0]) + esc_str(s.drop_first())
    }
}

pub open spec fn ser_bool(b: bool) -> Seq<char> {
    if b {
        lit_true()
    } else {
        lit_false()
    }
}

/// One task object.
pub open spec fn ser_task(t: TaskView) -> Seq<char> {
    task_open() + esc_str(t.description) + seq!['"'] + task_mid() + ser_bool(t.done)
        + task_close()
}

/// A non-empty task list: the task objects joined by commas. Empty input
/// gives the empty sequence.
pub open spec fn ser_tasks(ts: Seq<TaskView>) -> Seq<char>
    decreases ts.len(),
{
    if ts.len() == 0 {
        Seq::empty()
    } else if ts.len() == 1 {
        ser_task(ts[0])
    } else {
        ser_task(ts[0]) + seq![','] + ser_tasks(ts.drop_first())
    }
}

/// The whole document for a store.
pub open spec fn ser_store(ts: Seq<TaskView>) -> Seq<char> {
    if ts.len() == 0 {
        json_header() + json_empty_tail()
    } else {
        json_header() + ser_tasks(ts) + json_footer()
    }
}

// ---------------------------------------------------------------------------
// Small executable helpers.
// ---------------------------------------------------------------------------

/// Relies on `String::push`: appends exactly the given character at the end.
#[verifier::external_body]
fn push_char(s: &mut String, c: char)
    ensures
        final(s)@ == old(s)@.push(c),
{
    s.push(c)
}

/// Builds the string holding exactly the given characters.
fn string_from_chars(v: &Vec<char>) -> (s: String)
    ensures
        s@ == v@,
{
    let mut s = String::new();
    let mut i: usize = 0;
    while i < v.len()
        invariant
            i <= v@.len(),
            s@ == v@.subrange(0, i as int),
        decreases v@.len() - i,
    {
        push_char(&mut s, v[i]);
        i = i + 1;
        proof {
            assert(s@ =~= v@.subrange(0, i as int));
        }
    }
    proof {
        assert(v@.subrange(0, v@.len() as int) =~= v@);
    }
    s
}

/// Collects the characters of a string slice.
fn str_chars(s: &str) -> (v: Vec<char>)
    ensures
        v@ == s@,
{
    let n: usize = s.unicode_len();
    let mut v: Vec<char> = Vec::new();
    let mut i: usize = 0;
    while i < n
        invariant
            n == s@.len(),
            i <= n,
            v@ == s@.subrange(0, i as int),
        decreases n - i,
    {
        v.push(s.get_char(i));
        i = i + 1;
        proof {
            assert(v@ =~= s@.subrange(0, i as int));
        }
    }
    proof {
        assert(s@.subrange(0, n as int) =~= s@);
    }
    v
}

/// The fixed fragments, as character vectors for the executable code.
struct JsonLits {
    header: Vec<char>,
    empty_tail: Vec<char>,
    footer: Vec<char>,
    topen: Vec<char>,
    tmid: Vec<char>,
    tclose: Vec<char>,
    ltrue: Vec<char>,
    lfalse: Vec<char>,
}

spec fn lits_ok(l: &JsonLits) -> bool {
    &&& l.header@ == json_header()
    &&& l.empty_tail@ == json_empty_tail()
    &&& l.footer@ == json_footer()
    &&& l.topen@ == task_open()
    &&& l.tmid@ == task_mid()
    &&& l.tclose@ == task_close()
    &&& l.ltrue@ == lit_true()
    &&& l.lfalse@ == lit_false()
}

fn make_lits() -> (l: JsonLits)
    ensures
        lits_ok(&l),
{
    let l = JsonLits {
        header: str_chars("{\n  \"tasks\": ["),
        empty_tail: str_chars("]\n}"),
        footer: str_chars("\n  ]\n}"),
        topen: str_chars("\n    {\n      \"description\": \""),
        tmid: str_chars(",\n      \"done\": "),
        tclose: str_chars("\n    }"),
        ltrue: str_chars("true"),
        lfalse: str_chars("false"),
    };
    proof {
        reveal_strlit("{\n  \"tasks\": [");
        reveal_strlit("]\n}");
        reveal_strlit("\n  ]\n}");
        reveal_strlit("\n    {\n      \"description\": \"");
        reveal_strlit(",\n      \"done\": ");
        reveal_strlit("\n    }");
        reveal_strlit("true");
        reveal_strlit("false");
        assert(l.header@ =~= json_header());
        assert(l.empty_tail@ =~= json_empty_tail());
        assert(l.footer@ =~= json_footer());
        assert(l.topen@ =~= task_open());
        assert(l.tmid@ =~= task_mid());
        assert(l.tclose@ =~= task_close());
        assert(l.ltrue@ =~= lit_true());
        assert(l.lfalse@ =~= lit_false());
    }
    l
}

// ---------------------------------------------------------------------------
// The executable serializer.
// ---------------------------------------------------------------------------

fn push_all(out: &mut Vec<char>, src: &Vec<char>)
    ensures
        final(out)@ == old(out)@ + src@,
{
    let mut i: usize = 0;
    while i < src.len()
        invariant
            i <= src@.len(),
            out@ == old(out)@ + src@.subrange(0, i as int),
        decreases src@.len() - i,
    {
        out.push(src[i]);
        i = i + 1;
        proof {
            assert(out@ =~= old(out)@ + src@.subrange(0, i as int));
        }
    }
    proof {
        assert(old(out)@ + src@.subrange(0, src@.len() as int) =~= old(out)@ + src@);
    }
}

fn hex_digit_ex(n: u32) -> (c: char)
    requires
        n < 16,
    ensures
        c == hex_digit(n as int),
{
    match n {
        0 => '0',
        1 => '1',
        2 => '2',
        3 => '3',
        4 => '4',
        5 => '5',
        6 => '6',
        7 => '7',
        8 => '8',
        9 => '9',
        10 => 'a',
        11 => 'b',
        12 => 'c',
        13 => 'd',
        14 => 'e',
        _ => 'f',
    }
}

fn push_esc_char(out: &mut Vec<char>, c: char)
    ensures
        final(out)@ == old(out)@ + esc_char(c),
{
    if c == '"' {
        out.push('\\');
        out.push('"');
    } else if c == '\\' {
        out.push('\\');
        out.push('\\');
    } else {
        let u = c as u32;
        if u < 32 {
            out.push('\\');
            out.push('u');
            out.push('0');
            out.push('0');
            out.push(hex_digit_ex(u / 16));
            out.push(hex_digit_ex(u % 16));
        } else {
            out.push(c);
        }
    }
    proof {
        assert(out@ =~= old(out)@ + esc_char(c));
    }
}

proof fn lemma_esc_str_snoc(s: Seq<char>, c: char)
    ensures
        esc_str(s.push(c)) == esc_str(s) + esc_char(c),
    decreases s.len(),
{
    if s.len() == 0 {
        assert(s.push(c)[0] == c);
        assert(s.push(c).drop_first() =~= Seq::<char>::empty());
        assert(esc_str(Seq::<char>::empty()) =~= Seq::<char>::empty());
        assert(esc_str(s.push(c)) =~= esc_str(s) + esc_char(c));
    } else {
        lemma_esc_str_snoc(s.drop_first(), c);
        assert(s.push(c).drop_first() =~= s.drop_first().push(c));
        assert(esc_str(s.push(c)) =~= esc_str(s) + esc_char(c));
    }
}

fn push_esc(out: &mut Vec<char>, d: &str)
    ensures
        final(out)@ == old(out)@ + esc_str(d@),
{
    let n: usize = d.unicode_len();
    let mut i: usize = 0;
    while i < n
        invariant
            n == d@.len(),
            i <= n,
            out@ == old(out)@ + esc_str(d@.subrange(0, i as int)),
        decreases n - i,
    {
        let c = d.get_char(i);
        push_esc_char(out, c);
        proof {
            lemma_esc_str_snoc(d@.subrange(0, i as int), c);
            assert(d@.subrange(0, i as int).push(c) =~= d@.subrange(0, i as int + 1));
            assert(out@ =~= old(out)@ + esc_str(d@.subrange(0, i as int + 1)));
        }
        i = i + 1;
    }
    proof {
        assert(d@.subrange(0, n as int) =~= d@);
    }
}

/// Serializes a task list to the canonical document.
pub fn store_to_json(tasks: &Vec<Task>) -> (s: String)
    ensures
        s@ == ser_store(task_views(tasks@)),
{
    let ghost views = task_views(tasks@);
    let lits = make_lits();
    let mut out: Vec<char> = Vec::new();
    push_all(&mut out, &lits.header);
    if tasks.len() == 0 {
        push_all(&mut out, &lits.empty_tail);
        proof {
            assert(out@ =~= ser_store(views));
        }
    } else {
        let mut i: usize = 0;
        while i < tasks.len()
            invariant
                lits_ok(&lits),
                views == task_views(tasks@),
                1 <= tasks@.len(),
                i <= tasks@.len(),
                i == 0 ==> out@ == json_header(),
                i >= 1 ==> out@ == json_header() + ser_tasks(views.subrange(0, i as int)),
            decreases tasks@.len() - i,
        {
            let ghost out0 = out@;
            if i > 0 {
                out.push(',');
            }
            push_all(&mut out, &lits.topen);
            push_esc(&mut out, desc_at(tasks, i));
            out.push('"');
            push_all(&mut out, &lits.tmid);
            if tasks[i].done {
                push_all(&mut out, &lits.ltrue);
            } else {
                push_all(&mut out, &lits.lfalse);
            }
            push_all(&mut out, &lits.tclose);
            proof {
                let tv = views[i as int];
                assert(tv.description == tasks@[i as int].description@);
                if i == 0 {
                    assert(out@ =~= json_header() + ser_task(tv));
                    assert(ser_tasks(views.subrange(0, 1)) == ser_task(views.subrange(0, 1)[0]));
                    assert(out@ =~= json_header() + ser_tasks(views.subrange(0, 1)));
                } else {
                    assert(out@ =~= out0 + seq![','] + ser_task(tv));
                    lemma_ser_tasks_snoc(views.subrange(0, i as int), tv);
                    assert(views.subrange(0, i as int).push(tv) =~= views.subrange(
                        0,
                        i as int + 1,
                    ));
                    assert(out@ =~= json_header() + ser_tasks(views.subrange(0, i as int + 1)));
                }
            }
            i = i + 1;
        }
        push_all(&mut out, &lits.footer);
        proof {
            assert(views.subrange(0, views.len() as int) =~= views);
            assert(out@ =~= ser_store(views));
        }
    }
    string_from_chars(&out)
}

proof fn lemma_ser_tasks_snoc(ts: Seq<TaskView>, t: TaskView)
    requires
        ts.len() >= 1,
    ensures
        ser_tasks(ts.push(t)) == ser_tasks(ts) + seq![','] + ser_task(t),
    decreases ts.len(),
{
    if ts.len() == 1 {
        assert(ts.push(t).drop_first() =~= seq![t]);
        assert(ser_tasks(seq![t]) == ser_task(t));
        assert(ser_tasks(ts.push(t)) =~= ser_tasks(ts) + seq![','] + ser_task(t));
    } else {
        lemma_ser_tasks_snoc(ts.drop_first(), t);
        assert(ts.push(t).drop_first() =~= ts.drop_first().push(t));
        assert(ser_tasks(ts.push(t)) =~= ser_tasks(ts) + seq![','] + ser_task(t));
    }
}

/// The description of the task at `i`, as a borrowed slice.
fn desc_at<'a>(tasks: &'a Vec<Task>, i: usize) -> (d: &'a str)
    requires
        i < tasks@.len(),
    ensures
        d@ == tasks@[i as int].description@,
{
    tasks[i].description.as_str()
}

// ---------------------------------------------------------------------------
// Parsing, as a mathematical function. Each piece consumes a prefix of the
// text and hands back the rest.
// ---------------------------------------------------------------------------

/// Consumes exactly `lit` from the front of `t`.
pub open spec fn p_lit(t: Seq<char>, lit: Seq<char>) -> Option<Seq<char>> {
    if t.len() >= lit.len() && t.subrange(0, lit.len() as int) == lit {
        Option::Some(t.skip(lit.len() as int))
    } else {
        Option::None
    }
}

/// The value of a lower-case hexadecimal digit; 16 for any other character.
pub open spec fn unhex(c: char) -> int {
    if c == '0' {
        0
    } else if c == '1' {
        1
    } else if c == '2' {
        2
    } else if c == '3' {
        3
    } else if c == '4' {
        4
    } else if c == '5' {
        5
    } else if c == '6' {
        6
    } else if c == '7' {
        7
    } else if c == '8' {
        8
    } else if c == '9' {
        9
    } else if c == 'a' {
        10
    } else if c == 'b' {
        11
    } else if c == 'c' {
        12
    } else if c == 'd' {
        13
    } else if c == 'e' {
        14
    } else if c == 'f' {
        15
    } else {
        16
    }
}

/// Consumes a JSON string body up to and including its closing quote, undoing
/// the escapes that `esc_char` produces.
pub open spec fn p_str(t: Seq<char>) -> Option<(Seq<char>, Seq<char>)>
    decreases t.len(),
{
    if t.len() == 0 {
        Option::None
    } else if t[0] == '"' {
        Option::Some((Seq::empty(), t.drop_first()))
    } else if t[0] == '\\' {
        if t.len() >= 2 && t[1] == '"' {
            match p_str(t.skip(2)) {
                Option::Some(r) => Option::Some((seq!['"'] + r.0, r.1)),
                Option::None => Option::None,
            }
        } else if t.len() >= 2 && t[1] == '\\' {
            match p_str(t.skip(2)) {
                Option::Some(r) => Option::Some((seq!['\\'] + r.0, r.1)),
                Option::None => Option::None,
            }
        } else if t.len() >= 6 && t[1] == 'u' && t[2] == '0' && t[3] == '0' && unhex(t[4]) < 16
            && unhex(t[5]) < 16 && 16 * unhex(t[4]) + unhex(t[5]) < 32 {
            match p_str(t.skip(6)) {
                Option::Some(r) => Option::Some(
                    (seq![(((16 * unhex(t[4]) + unhex(t[5])) as u8) as char)] + r.0, r.1),
                ),
                Option::None => Option::None,
            }
        } else {
            Option::None
        }
    } else {
        match p_str(t.drop_first()) {
            Option::Some(r) => Option::Some((seq![t[0]] + r.0, r.1)),
            Option::None => Option::None,
        }
    }
}

/// Consumes `true` or `false`.
pub open spec fn p_bool(t: Seq<char>) -> Option<(bool, Seq<char>)> {
    match p_lit(t, lit_true()) {
        Option::Some(r) => Option::Some((true, r)),
        Option::None => match p_lit(t, lit_false()) {
            Option::Some(r) => Option::Some((false, r)),
            Option::None => Option::None,
        },
    }
}

/// Consumes one task object.
pub open spec fn p_task(t: Seq<char>) -> Option<(TaskView, Seq<char>)> {
    match p_lit(t, task_open()) {
        Option::None => Option::None,
        Option::Some(r1) => match p_str(r1) {
            Option::None => Option::None,
            Option::Some((d, r2)) => match p_lit(r2, task_mid()) {
                Option::None => Option::None,
                Option::Some(r3) => match p_bool(r3) {
                    Option::None => Option::None,
                    Option::Some((b, r4)) => match p_lit(r4, task_close()) {
                        Option::None => Option::None,
                        Option::Some(r5) => Option::Some(
                            (TaskView { description: d, done: b }, r5),
                        ),
                    },
                },
            },
        },
    }
}

/// Consumes one or more comma-separated task objects. `fuel` bounds the
/// recursion; every step consumes at least one character, so any fuel of at
/// least the text length behaves alike.
pub open spec fn p_tasks(t: Seq<char>, fuel: nat) -> Option<(Seq<TaskView>, Seq<char>)>
    decreases fuel,
{
    if fuel == 0 {
        Option::None
    } else {
        match p_task(t) {
            Option::None => Option::None,
            Option::Some((tv, r)) => {
                if r.len() > 0 && r[0] == ',' {
                    match p_tasks(r.drop_first(), (fuel - 1) as nat) {
                        Option::None => Option::None,
                        Option::Some((vs, r2)) => Option::Some((seq![tv] + vs, r2)),
                    }
                } else {
                    Option::Some((seq![tv], r))
                }
            },
        }
    }
}

/// Parses a whole document. `None` means the text is not a stored task list.
pub open spec fn p_store(t: Seq<char>) -> Option<Seq<TaskView>> {
    match p_lit(t, json_header()) {
        Option::None => Option::None,
        Option::Some(r) => {
            if r.len() > 0 && r[0] == ']' {
                match p_lit(r, json_empty_tail()) {
                    Option::Some(r2) => if r2.len() == 0 {
                        Option::Some(Seq::empty())
                    } else {
                        Option::None
                    },
                    Option::None => Option::None,
                }
            } else {
                match p_tasks(r, r.len() as nat) {
                    Option::None => Option::None,
                    Option::Some((vs, r2)) => match p_lit(r2, json_footer()) {
                        Option::Some(r3) => if r3.len() == 0 {
                            Option::Some(vs)
                        } else {
                            Option::None
                        },
                        Option::None => Option::None,
                    },
                }
            }
        },
    }
}

// ---------------------------------------------------------------------------
// The executable parser.
// ---------------------------------------------------------------------------

fn e_lit<'a>(t: &'a [char], lit: &Vec<char>) -> (r: Option<&'a [char]>)
    ensures
        match r {
            Option::Some(rest) => p_lit(t@, lit@) == Option::Some(rest@),
            Option::None => p_lit(t@, lit@) is None,
        },
{
    if t.len() < lit.len() {
        return None;
    }
    let mut i: usize = 0;
    while i < lit.len()
        invariant
            t@.len() >= lit@.len(),
            i <= lit@.len(),
            t@.subrange(0, i as int) == lit@.subrange(0, i as int),
        decreases lit@.len() - i,
    {
        if *vstd::slice::slice_index_get(t, i) != lit[i] {
            proof {
                if t@.subrange(0, lit@.len() as int) == lit@ {
                    assert(t@.subrange(0, lit@.len() as int)[i as int] == t@[i as int]);
                    assert(false);
                }
            }
            return None;
        }
        i = i + 1;
        proof {
            assert(t@.subrange(0, i as int) =~= lit@.subrange(0, i as int));
        }
    }
    proof {
        assert(lit@.subrange(0, lit@.len() as int) =~= lit@);
        assert(t@.skip(lit@.len() as int) =~= t@.subrange(lit@.len() as int, t@.len() as int));
    }
    Some(vstd::slice::slice_subrange(t, lit.len(), t.len()))
}

fn unhex_ex(c: char) -> (n: u32)
    ensures
        n == unhex(c),
{
    match c {
        '0' => 0,
        '1' => 1,
        '2' => 2,
        '3' => 3,
        '4' => 4,
        '5' => 5,
        '6' => 6,
        '7' => 7,
        '8' => 8,
        '9' => 9,
        'a' => 10,
        'b' => 11,
        'c' => 12,
        'd' => 13,
        'e' => 14,
        'f' => 15,
        _ => 16,
    }
}

fn e_str<'a>(t: &'a [char]) -> (r: Option<(Vec<char>, &'a [char])>)
    ensures
        match r {
            Option::Some(p) => p_str(t@) == Option::Some((p.0@, p.1@)),
            Option::None => p_str(t@) is None,
        },
    decreases t@.len(),
{
    if t.len() == 0 {
        return None;
    }
    let c0 = *vstd::slice::slice_index_get(t, 0);
    if c0 == '"' {
        let rest = vstd::slice::slice_subrange(t, 1, t.len());
        proof {
            assert(t@.drop_first() =~= t@.subrange(1, t@.len() as int));
        }
        return Some((Vec::new(), rest));
    }
    if c0 == '\\' {
        if t.len() >= 2 {
            let c1 = *vstd::slice::slice_index_get(t, 1);
            if c1 == '"' || c1 == '\\' {
                let tail = vstd::slice::slice_subrange(t, 2, t.len());
                proof {
                    assert(t@.skip(2) =~= t@.subrange(2, t@.len() as int));
                }
                return match e_str(tail) {
                    Option::Some((mut d, rest)) => {
                        d.insert(0, c1);
                        proof {
                            assert(d@ =~= seq![c1] + d@.drop_first());
                        }
                        Some((d, rest))
                    },
                    Option::None => None,
                };
            }
            if c1 == 'u' && t.len() >= 6 {
                let c2 = *vstd::slice::slice_index_get(t, 2);
                let c3 = *vstd::slice::slice_index_get(t, 3);
                let h1 = unhex_ex(*vstd::slice::slice_index_get(t, 4));
                let h2 = unhex_ex(*vstd::slice::slice_index_get(t, 5));
                if c2 == '0' && c3 == '0' && h1 < 16 && h2 < 16 && 16 * h1 + h2 < 32 {
                    let tail = vstd::slice::slice_subrange(t, 6, t.len());
                    proof {
                        assert(t@.skip(6) =~= t@.subrange(6, t@.len() as int));
                    }
                    return match e_str(tail) {
                        Option::Some((mut d, rest)) => {
                            let c = (16 * h1 + h2) as u8 as char;
                            d.insert(0, c);
                            proof {
                                assert(d@ =~= seq![c] + d@.drop_first());
                            }
                            Some((d, rest))
                        },
                        Option::None => None,
                    };
                }
                return None;
            }
        }
        return None;
    }
    let tail = vstd::slice::slice_subrange(t, 1, t.len());
    proof {
        assert(t@.drop_first() =~= t@.subrange(1, t@.len() as int));
    }
    match e_str(tail) {
        Option::Some((mut d, rest)) => {
            d.insert(0, c0);
            proof {
                assert(d@ =~= seq![c0] + d@.drop_first());
            }
            Some((d, rest))
        },
        Option::None => None,
    }
}

fn e_bool<'a>(t: &'a [char], lits: &JsonLits) -> (r: Option<(bool, &'a [char])>)
    requires
        lits_ok(lits),
    ensures
        match r {
            Option::Some(p) => p_bool(t@) == Option::Some((p.0, p.1@)),
            Option::None => p_bool(t@) is None,
        },
{
    match e_lit(t, &lits.ltrue) {
        Option::Some(rest) => Some((true, rest)),
        Option::None => match e_lit(t, &lits.lfalse) {
            Option::Some(rest) => Some((false, rest)),
            Option::None => None,
        },
    }
}

fn e_task<'a>(t: &'a [char], lits: &JsonLits) -> (r: Option<(Task, &'a [char])>)
    requires
        lits_ok(lits),
    ensures
        match r {
            Option::Some(p) => p_task(t@) == Option::Some((p.0@, p.1@)),
            Option::None => p_task(t@) is None,
        },
{
    let r1 = match e_lit(t, &lits.topen) {
        Option::Some(r1) => r1,
        Option::None => {
            return None;
        },
    };
    let (d, r2) = match e_str(r1) {
        Option::Some(p) => p,
        Option::None => {
            return None;
        },
    };
    let r3 = match e_lit(r2, &lits.tmid) {
        Option::Some(r3) => r3,
        Option::None => {
            return None;
        },
    };
    let (b, r4) = match e_bool(r3, lits) {
        Option::Some(p) => p,
        Option::None => {
            return None;
        },
    };
    let r5 = match e_lit(r4, &lits.tclose) {
        Option::Some(r5) => r5,
        Option::None => {
            return None;
        },
    };
    let task = Task { description: string_from_chars(&d), done: b };
    Some((task, r5))
}

fn e_tasks<'a>(t: &'a [char], fuel: usize, lits: &JsonLits) -> (r: Option<(Vec<Task>, &'a [char])>)
    requires
        lits_ok(lits),
    ensures
        match r {
            Option::Some(p) => p_tasks(t@, fuel as nat) == Option::Some(
                (task_views(p.0@), p.1@),
            ),
            Option::None => p_tasks(t@, fuel as nat) is None,
        },
    decreases fuel,
{
    if fuel == 0 {
        return None;
    }
    let (task, r) = match e_task(t, lits) {
        Option::Some(p) => p,
        Option::None => {
            return None;
        },
    };
    if r.len() > 0 && *vstd::slice::slice_index_get(r, 0) == ',' {
        let tail = vstd::slice::slice_subrange(r, 1, r.len());
        proof {
            assert(r@.drop_first() =~= r@.subrange(1, r@.len() as int));
        }
        match e_tasks(tail, fuel - 1, lits) {
            Option::Some((mut vs, r2)) => {
                vs.insert(0, task);
                proof {
                    assert(task_views(vs@) =~~= seq![task@] + task_views(vs@.drop_first()));
                }
                Some((vs, r2))
            },
            Option::None => None,
        }
    } else {
        let mut vs: Vec<Task> = Vec::new();
        vs.push(task);
        proof {
            assert(task_views(vs@) =~~= seq![task@]);
        }
        Some((vs, r))
    }
}

/// Parses a document into a task list; `None` means the text is not a stored
/// task list.
pub fn json_to_store(s: &str) -> (r: Option<Vec<Task>>)
    ensures
        match r {
            Option::Some(tasks) => p_store(s@) == Option::Some(task_views(tasks@)),
            Option::None => p_store(s@) is None,
        },
{
    let lits = make_lits();
    let chars = str_chars(s);
    let t = chars.as_slice();
    let r = match e_lit(t, &lits.header) {
        Option::Some(r) => r,
        Option::None => {
            return None;
        },
    };
    if r.len() > 0 && *vstd::slice::slice_index_get(r, 0) == ']' {
        let r2 = match e_lit(r, &lits.empty_tail) {
            Option::Some(r2) => r2,
            Option::None => {
                return None;
            },
        };
        if r2.len() == 0 {
            let vs: Vec<Task> = Vec::new();
            proof {
                assert(task_views(vs@) =~= Seq::<TaskView>::empty());
            }
            Some(vs)
        } else {
            None
        }
    } else {
        let (vs, r2) = match e_tasks(r, r.len(), &lits) {
            Option::Some(p) => p,
            Option::None => {
                return None;
            },
        };
        let r3 = match e_lit(r2, &lits.footer) {
            Option::Some(r3) => r3,
            Option::None => {
                return None;
            },
        };
        if r3.len() == 0 {
            Some(vs)
        } else {
            None
        }
    }
}

// ---------------------------------------------------------------------------
// Round trip: parsing a serialized store gives the store back.
// ---------------------------------------------------------------------------

proof fn lemma_p_lit_inv(lit: Seq<char>, rest: Seq<char>)
    ensures
        p_lit(lit + rest, lit) == Option::Some(rest),
{
    let t = lit + rest;
    assert(t.subrange(0, lit.len() as int) =~= lit);
    assert(t.skip(lit.len() as int) =~= rest);
}

proof fn lemma_unhex_hex(n: int)
    requires
        0 <= n < 16,
    ensures
        unhex(hex_digit(n)) == n,
{
}

proof fn lemma_ctrl_char_cast(c: char)
    requires
        (c as u32) < 32,
    ensures
        (((c as u32) as u8) as char) == c,
{
}

proof fn lemma_p_str_inv(s: Seq<char>, rest: Seq<char>)
    ensures
        p_str(esc_str(s) + seq!['"'] + rest) == Option::Some((s, rest)),
    decreases s.len(),
{
    let t = esc_str(s) + seq!['"'] + rest;
    if s.len() == 0 {
        assert(esc_str(s) =~= Seq::<char>::empty());
        assert(t =~= seq!['"'] + rest);
        assert(t[0] == '"');
        assert(t.drop_first() =~= rest);
        assert(s =~= Seq::<char>::empty());
    } else {
        let c = s[0];
        let s1 = s.drop_first();
        lemma_p_str_inv(s1, rest);
        let t1 = esc_str(s1) + seq!['"'] + rest;
        assert(esc_str(s) == esc_char(c) + esc_str(s1));
        assert(t =~= esc_char(c) + t1);
        assert(seq![c] + s1 =~= s);
        if c == '"' {
            assert(t[0] == '\\' && t.len() >= 2 && t[1] == '"');
            assert(t.skip(2) =~= t1);
        } else if c == '\\' {
            assert(t[0] == '\\' && t.len() >= 2 && t[1] == '\\');
            assert(t.skip(2) =~= t1);
        } else if (c as u32) < 32 {
            let u = (c as u32) as int;
            assert(t.len() >= 6);
            assert(t[0] == '\\' && t[1] == 'u' && t[2] == '0' && t[3] == '0');
            assert(t[4] == hex_digit(u / 16) && t[5] == hex_digit(u % 16));
            lemma_unhex_hex(u / 16);
            lemma_unhex_hex(u % 16);
            assert(16 * unhex(t[4]) + unhex(t[5]) == u);
            lemma_ctrl_char_cast(c);
            assert((u as u8) == ((c as u32) as u8));
            assert((((u as u8) as char)) == c);
            assert(t.skip(6) =~= t1);
        } else {
            assert(t[0] == c && c != '"' && c != '\\');
            assert(t.drop_first() =~= t1);
        }
    }
}

proof fn lemma_p_bool_inv(b: bool, rest: Seq<char>)
    ensures
        p_bool(ser_bool(b) + rest) == Option::Some((b, rest)),
{
    if b {
        lemma_p_lit_inv(lit_true(), rest);
    } else {
        lemma_p_lit_inv(lit_false(), rest);
        let t = lit_false() + rest;
        if t.len() >= lit_true().len() && t.subrange(0, lit_true().len() as int) == lit_true() {
            assert(t.subrange(0, lit_true().len() as int)[0] == t[0]);
            assert(false);
        }
    }
}

proof fn lemma_p_task_inv(tv: TaskView, rest: Seq<char>)
    ensures
        p_task(ser_task(tv) + rest) == Option::Some((tv, rest)),
{
    let t = ser_task(tv) + rest;
    let after_str = task_mid() + ser_bool(tv.done) + task_close() + rest;
    let after_mid = ser_bool(tv.done) + (task_close() + rest);
    assert(t =~= task_open() + (esc_str(tv.description) + seq!['"'] + after_str));
    lemma_p_lit_inv(task_open(), esc_str(tv.description) + seq!['"'] + after_str);
    lemma_p_str_inv(tv.description, after_str);
    assert(after_str =~= task_mid() + after_mid);
    lemma_p_lit_inv(task_mid(), after_mid);
    lemma_p_bool_inv(tv.done, task_close() + rest);
    lemma_p_lit_inv(task_close(), rest);
}

proof fn lemma_ser_tasks_facts(ts: Seq<TaskView>)
    requires
        ts.len() >= 1,
    ensures
        ser_tasks(ts).len() >= ts.len(),
        ser_tasks(ts)[0] == '\n',
    decreases ts.len(),
{
    assert(ser_task(ts[0])[0] == task_open()[0]);
    if ts.len() > 1 {
        lemma_ser_tasks_facts(ts.drop_first());
    }
}

#[verifier::rlimit(50)]
proof fn lemma_p_tasks_inv(ts: Seq<TaskView>, rest: Seq<char>, fuel: nat)
    requires
        ts.len() >= 1,
        fuel >= ts.len(),
        rest.len() == 0 || rest[0] != ',',
    ensures
        p_tasks(ser_tasks(ts) + rest, fuel) == Option::Some((ts, rest)),
    decreases ts.len(),
{
    let t = ser_tasks(ts) + rest;
    if ts.len() == 1 {
        assert(ser_tasks(ts) == ser_task(ts[0]));
        lemma_p_task_inv(ts[0], rest);
        assert(seq![ts[0]] =~= ts);
    } else {
        let ts1 = ts.drop_first();
        let r1 = seq![','] + (ser_tasks(ts1) + rest);
        assert(t =~= ser_task(ts[0]) + r1);
        lemma_p_task_inv(ts[0], r1);
        assert(r1[0] == ',');
        assert(r1.drop_first() =~= ser_tasks(ts1) + rest);
        lemma_p_tasks_inv(ts1, rest, (fuel - 1) as nat);
        assert(seq![ts[0]] + ts1 =~= ts);
    }
}

/// The round trip law: serializing any store and parsing the result gives
/// exactly the same sequence of tasks back, whatever the descriptions and
/// done flags hold.
pub proof fn lemma_save_load_round_trip(tasks: Seq<TaskView>)
    ensures
        p_store(ser_store(tasks)) == Option::Some(tasks),
{
    if tasks.len() == 0 {
        lemma_p_lit_inv(json_header(), json_empty_tail());
        assert(json_empty_tail()[0] == ']');
        assert(json_empty_tail() + Seq::<char>::empty() =~= json_empty_tail());
        lemma_p_lit_inv(json_empty_tail(), Seq::empty());
        assert(tasks =~= Seq::<TaskView>::empty());
    } else {
        let body = ser_tasks(tasks) + json_footer();
        assert(ser_store(tasks) =~= json_header() + body);
        lemma_p_lit_inv(json_header(), body);
        lemma_ser_tasks_facts(tasks);
        assert(body[0] == '\n');
        assert(body.len() >= tasks.len());
        assert(json_footer()[0] != ',');
        lemma_p_tasks_inv(tasks, json_footer(), body.len() as nat);
        assert(json_footer() + Seq::<char>::empty() =~= json_footer());
        lemma_p_lit_inv(json_footer(), Seq::empty());
    }
}

/// Text too short to hold even the fixed frame never parses; in particular
/// the empty document is rejected, and loading it falls back to the empty
/// store.
pub proof fn lemma_short_text_rejected(t: Seq<char>)
    requires
        t.len() < json_header().len(),
    ensures
        p_store(t) is None,
{
}

} // verus!
