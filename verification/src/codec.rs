use vstd::prelude::*;
use crate::task::{Task, TaskView, task_wf, opt_text_view};

verus! {

// ===== The persisted format, as a function from the model to text =====
//
// A collection is saved as a JSON array of records, one per task, with the
// four fields in a fixed order and no surrounding whitespace:
//
//   [{"title":"Buy milk","priority":2,"completed":false,"category":null}]
//
// Text fields are quoted; a quote or backslash inside them is escaped with
// a backslash; every other character stands for itself.

/// The encoding of one character inside a quoted field.
pub open spec fn esc_char(c: char) -> Seq<char> {
    if c == '"' || c == '\\' {
        seq!['\\', c]
    } else {
        seq![c]
    }
}

/// The encoding of the body of a quoted field.
pub open spec fn enc_text(s: Seq<char>) -> Seq<char>
    decreases s.len(),
{
    if s.len() == 0 {
        Seq::empty()
    } else {
        esc_char(s[0]) + enc_text(s.drop_first())
    }
}

/// The encoding of a quoted field, delimiters included.
pub open spec fn enc_quoted(s: Seq<char>) -> Seq<char> {
    seq!['"'] + enc_text(s) + seq!['"']
}

/// The encoding of a priority; the store only saves priorities 1 to 3.
pub open spec fn enc_priority(p: u8) -> Seq<char> {
    if p == 1 {
        seq!['1']
    } else if p == 2 {
        seq!['2']
    } else {
        seq!['3']
    }
}

/// The encoding of the completion flag.
pub open spec fn enc_bool(b: bool) -> Seq<char> {
    if b {
        seq!['t', 'r', 'u', 'e']
    } else {
        seq!['f', 'a', 'l', 's', 'e']
    }
}

/// The encoding of the optional category.
pub open spec fn enc_category(c: Option<Seq<char>>) -> Seq<char> {
    match c {
        Some(s) => enc_quoted(s),
        None => seq!['n', 'u', 'l', 'l'],
    }
}

/// The text that opens a record and introduces its title field.
pub open spec fn lit_title() -> Seq<char> {
    seq!['{', '"', 't', 'i', 't', 'l', 'e', '"', ':']
}

/// The text that introduces the priority field.
pub open spec fn lit_priority() -> Seq<char> {
    seq![',', '"', 'p', 'r', 'i', 'o', 'r', 'i', 't', 'y', '"', ':']
}

/// The text that introduces the completion field.
pub open spec fn lit_completed() -> Seq<char> {
    seq![',', '"', 'c', 'o', 'm', 'p', 'l', 'e', 't', 'e', 'd', '"', ':']
}

/// The text that introduces the category field.
pub open spec fn lit_category() -> Seq<char> {
    seq![',', '"', 'c', 'a', 't', 'e', 'g', 'o', 'r', 'y', '"', ':']
}

/// The encoding of one task record.
pub open spec fn enc_task(t: TaskView) -> Seq<char> {
    lit_title() + enc_quoted(t.title) + lit_priority() + enc_priority(t.priority) + lit_completed()
        + enc_bool(t.completed) + lit_category() + enc_category(t.category) + seq!['}']
}

/// The encoding of every task after the first, each preceded by a comma,
/// followed by the closing bracket.
pub open spec fn enc_tasks_tail(ts: Seq<TaskView>) -> Seq<char>
    decreases ts.len(),
{
    if ts.len() == 0 {
        seq![']']
    } else {
        seq![','] + enc_task(ts[0]) + enc_tasks_tail(ts.drop_first())
    }
}

/// The encoding of a whole task collection.
pub open spec fn enc_tasks(ts: Seq<TaskView>) -> Seq<char> {
    if ts.len() == 0 {
        seq!['[', ']']
    } else {
        seq!['['] + enc_task(ts[0]) + enc_tasks_tail(ts.drop_first())
    }
}

// ===== The decoder, as a function from text to the model =====
//
// Each piece consumes a prefix of the remaining text and returns the decoded
// value together with what is left; `None` means the text is not a valid
// snapshot. The decoder accepts exactly the texts the encoder produces.

/// Consumes the exact text `l`, or fails.
pub open spec fn dec_lit(s: Seq<char>, l: Seq<char>) -> Option<Seq<char>> {
    if l.len() <= s.len() && s.take(l.len() as int) == l {
        Some(s.skip(l.len() as int))
    } else {
        None
    }
}

/// Consumes the body of a quoted field up to and including the closing quote.
pub open spec fn dec_text(s: Seq<char>) -> Option<(Seq<char>, Seq<char>)>
    decreases s.len(),
{
    if s.len() == 0 {
        None
    } else if s[0] == '"' {
        Some((Seq::empty(), s.drop_first()))
    } else if s[0] == '\\' {
        if s.len() >= 2 && (s[1] == '"' || s[1] == '\\') {
            match dec_text(s.skip(2)) {
                Some(p) => Some((seq![s[1]] + p.0, p.1)),
                None => None,
            }
        } else {
            None
        }
    } else {
        match dec_text(s.drop_first()) {
            Some(p) => Some((seq![s[0]] + p.0, p.1)),
            None => None,
        }
    }
}

/// Consumes a quoted field, delimiters included.
pub open spec fn dec_quoted(s: Seq<char>) -> Option<(Seq<char>, Seq<char>)> {
    match dec_lit(s, seq!['"']) {
        Some(r) => dec_text(r),
        None => None,
    }
}

/// Consumes a priority digit.
pub open spec fn dec_priority(s: Seq<char>) -> Option<(u8, Seq<char>)> {
    if s.len() >= 1 && s[0] == '1' {
        Some((1u8, s.drop_first()))
    } else if s.len() >= 1 && s[0] == '2' {
        Some((2u8, s.drop_first()))
    } else if s.len() >= 1 && s[0] == '3' {
        Some((3u8, s.drop_first()))
    } else {
        None
    }
}

/// Consumes a completion flag.
pub open spec fn dec_bool(s: Seq<char>) -> Option<(bool, Seq<char>)> {
    match dec_lit(s, enc_bool(true)) {
        Some(r) => Some((true, r)),
        None => match dec_lit(s, enc_bool(false)) {
            Some(r) => Some((false, r)),
            None => None,
        },
    }
}

/// Consumes an optional category.
pub open spec fn dec_category(s: Seq<char>) -> Option<(Option<Seq<char>>, Seq<char>)> {
    match dec_lit(s, seq!['n', 'u', 'l', 'l']) {
        Some(r) => Some((None, r)),
        None => match dec_quoted(s) {
            Some(p) => Some((Some(p.0), p.1)),
            None => None,
        },
    }
}

/// Consumes one task record; a record with an empty title is refused, so a
/// decoded collection is always well-formed.
pub open spec fn dec_task(s: Seq<char>) -> Option<(TaskView, Seq<char>)> {
    match dec_lit(s, lit_title()) {
        None => None,
        Some(s1) => match dec_quoted(s1) {
            None => None,
            Some((title, s2)) => if title.len() == 0 {
                None
            } else {
                match dec_lit(s2, lit_priority()) {
                    None => None,
                    Some(s3) => match dec_priority(s3) {
                        None => None,
                        Some((p, s4)) => match dec_lit(s4, lit_completed()) {
                            None => None,
                            Some(s5) => match dec_bool(s5) {
                                None => None,
                                Some((b, s6)) => match dec_lit(s6, lit_category()) {
                                    None => None,
                                    Some(s7) => match dec_category(s7) {
                                        None => None,
                                        Some((c, s8)) => match dec_lit(s8, seq!['}']) {
                                            None => None,
                                            Some(s9) => Some(
                                                (
                                                    TaskView {
                                                        title: title,
                                                        priority: p,
                                                        completed: b,
                                                        category: c,
                                                    },
                                                    s9,
                                                ),
                                            ),
                                        },
                                    },
                                },
                            },
                        },
                    },
                }
            },
        },
    }
}

/// Consumes the records after the first, each preceded by a comma, and the
/// closing bracket.
pub open spec fn dec_tasks_tail(s: Seq<char>) -> Option<(Seq<TaskView>, Seq<char>)>
    decreases s.len(),
{
    if s.len() >= 1 && s[0] == ']' {
        Some((Seq::empty(), s.drop_first()))
    } else if s.len() >= 1 && s[0] == ',' {
        match dec_task(s.drop_first()) {
            Some((t, r)) => if r.len() < s.len() {
                match dec_tasks_tail(r) {
                    Some((ts, r2)) => Some((seq![t] + ts, r2)),
                    None => None,
                }
            } else {
                None
            },
            None => None,
        }
    } else {
        None
    }
}

/// Decodes a whole snapshot; the text must be consumed exactly.
pub open spec fn dec_tasks(s: Seq<char>) -> Option<Seq<TaskView>> {
    match dec_lit(s, seq!['[']) {
        None => None,
        Some(s1) => if s1.len() >= 1 && s1[0] == ']' {
            if s1.len() == 1 {
                Some(Seq::empty())
            } else {
                None
            }
        } else {
            match dec_task(s1) {
                Some((t, r)) => match dec_tasks_tail(r) {
                    Some((ts, r2)) => if r2.len() == 0 {
                        Some(seq![t] + ts)
                    } else {
                        None
                    },
                    None => None,
                },
                None => None,
            }
        },
    }
}

// ===== Round trip: the decoder inverts the encoder =====

/// Consuming a literal that stands at the front leaves exactly the rest.
proof fn lemma_dec_lit(l: Seq<char>, rest: Seq<char>)
    ensures
        dec_lit(l + rest, l) == Some(rest),
{
    assert((l + rest).take(l.len() as int) =~= l);
    assert((l + rest).skip(l.len() as int) =~= rest);
}

/// Decoding the encoded body of a quoted field, followed by the closing
/// quote and any rest, gives back the body and the rest.
proof fn lemma_dec_text(v: Seq<char>, rest: Seq<char>)
    ensures
        dec_text(enc_text(v) + seq!['"'] + rest) == Some((v, rest)),
    decreases v.len(),
{
    let s = enc_text(v) + seq!['"'] + rest;
    if v.len() == 0 {
        assert(s =~= seq!['"'] + rest);
        assert(s[0] == '"');
        assert(s.drop_first() =~= rest);
        assert(v =~= Seq::<char>::empty());
    } else {
        let c = v[0];
        let v2 = v.drop_first();
        assert(enc_text(v) == esc_char(c) + enc_text(v2));
        lemma_dec_text(v2, rest);
        if c == '"' || c == '\\' {
            assert(s[0] == '\\');
            assert(s[1] == c);
            assert(s.len() >= 2);
            assert(s.skip(2) =~= enc_text(v2) + seq!['"'] + rest);
            assert(seq![c] + v2 =~= v);
        } else {
            assert(s[0] == c);
            assert(s.drop_first() =~= enc_text(v2) + seq!['"'] + rest);
            assert(seq![c] + v2 =~= v);
        }
    }
}

/// Decoding an encoded quoted field followed by any rest gives back the
/// field and the rest.
proof fn lemma_dec_quoted(v: Seq<char>, rest: Seq<char>)
    ensures
        dec_quoted(enc_quoted(v) + rest) == Some((v, rest)),
{
    let s = enc_quoted(v) + rest;
    assert(s =~= seq!['"'] + (enc_text(v) + seq!['"'] + rest));
    lemma_dec_lit(seq!['"'], enc_text(v) + seq!['"'] + rest);
    lemma_dec_text(v, rest);
}

/// Decoding an encoded priority within bounds gives back the priority.
proof fn lemma_dec_priority(p: u8, rest: Seq<char>)
    requires
        1 <= p <= 3,
    ensures
        dec_priority(enc_priority(p) + rest) == Some((p, rest)),
{
    let s = enc_priority(p) + rest;
    assert(s.drop_first() =~= rest);
}

/// Decoding an encoded completion flag gives back the flag.
proof fn lemma_dec_bool(b: bool, rest: Seq<char>)
    ensures
        dec_bool(enc_bool(b) + rest) == Some((b, rest)),
{
    let s = enc_bool(b) + rest;
    if b {
        lemma_dec_lit(enc_bool(true), rest);
    } else {
        lemma_dec_lit(enc_bool(false), rest);
        assert(s[0] == 'f');
        if dec_lit(s, enc_bool(true)) is Some {
            assert(s.take(4)[0] == 't');
            assert(s.take(4)[0] == 'f');
        }
    }
}

/// Decoding an encoded category gives back the category.
proof fn lemma_dec_category(c: Option<Seq<char>>, rest: Seq<char>)
    ensures
        dec_category(enc_category(c) + rest) == Some((c, rest)),
{
    let s = enc_category(c) + rest;
    match c {
        None => {
            lemma_dec_lit(seq!['n', 'u', 'l', 'l'], rest);
        },
        Some(v) => {
            assert(s[0] == '"');
            if dec_lit(s, seq!['n', 'u', 'l', 'l']) is Some {
                assert(s.take(4)[0] == 'n');
                assert(s.take(4)[0] == '"');
            }
            lemma_dec_quoted(v, rest);
        },
    }
}

/// Decoding an encoded well-formed task record followed by any rest gives
/// back the task and the rest.
#[verifier::rlimit(100)]
proof fn lemma_dec_task(t: TaskView, rest: Seq<char>)
    requires
        task_wf(t),
    ensures
        dec_task(enc_task(t) + rest) == Some((t, rest)),
{
    let s = enc_task(t) + rest;
    let r1 = enc_quoted(t.title) + lit_priority() + enc_priority(t.priority) + lit_completed()
        + enc_bool(t.completed) + lit_category() + enc_category(t.category) + seq!['}'] + rest;
    assert(s =~= lit_title() + r1);
    lemma_dec_lit(lit_title(), r1);
    let r2 = lit_priority() + enc_priority(t.priority) + lit_completed() + enc_bool(t.completed)
        + lit_category() + enc_category(t.category) + seq!['}'] + rest;
    assert(r1 =~= enc_quoted(t.title) + r2);
    lemma_dec_quoted(t.title, r2);
    let r3 = enc_priority(t.priority) + lit_completed() + enc_bool(t.completed) + lit_category()
        + enc_category(t.category) + seq!['}'] + rest;
    assert(r2 =~= lit_priority() + r3);
    lemma_dec_lit(lit_priority(), r3);
    let r4 = lit_completed() + enc_bool(t.completed) + lit_category() + enc_category(t.category)
        + seq!['}'] + rest;
    assert(r3 =~= enc_priority(t.priority) + r4);
    lemma_dec_priority(t.priority, r4);
    let r5 = enc_bool(t.completed) + lit_category() + enc_category(t.category) + seq!['}'] + rest;
    assert(r4 =~= lit_completed() + r5);
    lemma_dec_lit(lit_completed(), r5);
    let r6 = lit_category() + enc_category(t.category) + seq!['}'] + rest;
    assert(r5 =~= enc_bool(t.completed) + r6);
    lemma_dec_bool(t.completed, r6);
    let r7 = enc_category(t.category) + seq!['}'] + rest;
    assert(r6 =~= lit_category() + r7);
    lemma_dec_lit(lit_category(), r7);
    let r8 = seq!['}'] + rest;
    assert(r7 =~= enc_category(t.category) + r8);
    lemma_dec_category(t.category, r8);
    lemma_dec_lit(seq!['}'], rest);
    assert(r8 =~= seq!['}'] + rest);
}

/// Decoding the encoded tail of a collection consumes it exactly.
proof fn lemma_dec_tasks_tail(ts: Seq<TaskView>)
    requires
        forall|i: int| 0 <= i < ts.len() ==> task_wf(#[trigger] ts[i]),
    ensures
        dec_tasks_tail(enc_tasks_tail(ts)) == Some((ts, Seq::<char>::empty())),
    decreases ts.len(),
{
    let s = enc_tasks_tail(ts);
    if ts.len() == 0 {
        assert(s[0] == ']');
        assert(s.drop_first() =~= Seq::<char>::empty());
        assert(ts =~= Seq::<TaskView>::empty());
    } else {
        let t = ts[0];
        let ts2 = ts.drop_first();
        assert(s == seq![','] + enc_task(t) + enc_tasks_tail(ts2));
        assert(s[0] == ',');
        assert(s.drop_first() =~= enc_task(t) + enc_tasks_tail(ts2));
        lemma_dec_task(t, enc_tasks_tail(ts2));
        assert(forall|i: int| 0 <= i < ts2.len() ==> task_wf(#[trigger] ts2[i]));
        lemma_dec_tasks_tail(ts2);
        assert(enc_tasks_tail(ts2).len() < s.len());
        assert(seq![t] + ts2 =~= ts);
    }
}

/// Round trip: decoding the encoding of any well-formed collection gives
/// back exactly that collection.
#[verifier::rlimit(100)]
pub proof fn lemma_enc_dec_tasks(ts: Seq<TaskView>)
    requires
        forall|i: int| 0 <= i < ts.len() ==> task_wf(#[trigger] ts[i]),
    ensures
        dec_tasks(enc_tasks(ts)) == Some(ts),
{
    let s = enc_tasks(ts);
    if ts.len() == 0 {
        assert(s =~= seq!['['] + seq![']']);
        lemma_dec_lit(seq!['['], seq![']']);
        assert(ts =~= Seq::<TaskView>::empty());
    } else {
        let t = ts[0];
        let ts2 = ts.drop_first();
        let r1 = enc_task(t) + enc_tasks_tail(ts2);
        assert(s =~= seq!['['] + r1);
        lemma_dec_lit(seq!['['], r1);
        assert(r1[0] == '{');
        lemma_dec_task(t, enc_tasks_tail(ts2));
        assert(forall|i: int| 0 <= i < ts2.len() ==> task_wf(#[trigger] ts2[i]));
        lemma_dec_tasks_tail(ts2);
        assert(seq![t] + ts2 =~= ts);
    }
}

// ===== Soundness: whatever decodes was an encoding =====

/// A consumed literal stood at the front of the text.
proof fn lemma_dec_lit_sound(s: Seq<char>, l: Seq<char>)
    ensures
        dec_lit(s, l) matches Some(r) ==> s == l + r,
{
    match dec_lit(s, l) {
        Some(r) => {
            assert(s =~= l + s.skip(l.len() as int));
        },
        None => {},
    }
}

/// A decoded field body came from its escaped encoding and the closing quote.
proof fn lemma_dec_text_sound(s: Seq<char>)
    ensures
        dec_text(s) matches Some(p) ==> s == enc_text(p.0) + seq!['"'] + p.1,
    decreases s.len(),
{
    if s.len() == 0 {
    } else if s[0] == '"' {
        assert(enc_text(Seq::<char>::empty()) =~= Seq::<char>::empty());
        assert(s =~= enc_text(Seq::<char>::empty()) + seq!['"'] + s.drop_first());
    } else if s[0] == '\\' {
        if s.len() >= 2 && (s[1] == '"' || s[1] == '\\') {
            lemma_dec_text_sound(s.skip(2));
            match dec_text(s.skip(2)) {
                Some(p) => {
                    let v = seq![s[1]] + p.0;
                    assert(v[0] == s[1]);
                    assert(v.drop_first() =~= p.0);
                    assert(enc_text(v) == esc_char(s[1]) + enc_text(p.0));
                    assert(s =~= seq!['\\', s[1]] + s.skip(2));
                    assert(s =~= enc_text(v) + seq!['"'] + p.1);
                },
                None => {},
            }
        }
    } else {
        lemma_dec_text_sound(s.drop_first());
        match dec_text(s.drop_first()) {
            Some(p) => {
                let v = seq![s[0]] + p.0;
                assert(v[0] == s[0]);
                assert(v.drop_first() =~= p.0);
                assert(enc_text(v) == esc_char(s[0]) + enc_text(p.0));
                assert(s =~= seq![s[0]] + s.drop_first());
                assert(s =~= enc_text(v) + seq!['"'] + p.1);
            },
            None => {},
        }
    }
}

/// A decoded quoted field came from its encoding, delimiters included.
proof fn lemma_dec_quoted_sound(s: Seq<char>)
    ensures
        dec_quoted(s) matches Some(p) ==> s == enc_quoted(p.0) + p.1,
{
    lemma_dec_lit_sound(s, seq!['"']);
    match dec_lit(s, seq!['"']) {
        Some(r) => {
            lemma_dec_text_sound(r);
            match dec_text(r) {
                Some(p) => {
                    assert(s =~= enc_quoted(p.0) + p.1);
                },
                None => {},
            }
        },
        None => {},
    }
}

/// A decoded priority came from its single digit.
proof fn lemma_dec_priority_sound(s: Seq<char>)
    ensures
        dec_priority(s) matches Some(p) ==> s == enc_priority(p.0) + p.1 && 1 <= p.0 <= 3,
{
    match dec_priority(s) {
        Some(p) => {
            assert(s =~= seq![s[0]] + s.drop_first());
        },
        None => {},
    }
}

/// A decoded completion flag came from its keyword.
proof fn lemma_dec_bool_sound(s: Seq<char>)
    ensures
        dec_bool(s) matches Some(p) ==> s == enc_bool(p.0) + p.1,
{
    lemma_dec_lit_sound(s, enc_bool(true));
    lemma_dec_lit_sound(s, enc_bool(false));
}

/// A decoded category came from its encoding.
proof fn lemma_dec_category_sound(s: Seq<char>)
    ensures
        dec_category(s) matches Some(p) ==> s == enc_category(p.0) + p.1,
{
    lemma_dec_lit_sound(s, seq!['n', 'u', 'l', 'l']);
    lemma_dec_quoted_sound(s);
}

/// A decoded task record came from its encoding.
#[verifier::rlimit(100)]
proof fn lemma_dec_task_sound(s: Seq<char>)
    ensures
        dec_task(s) matches Some(p) ==> s == enc_task(p.0) + p.1,
{
    lemma_dec_lit_sound(s, lit_title());
    match dec_lit(s, lit_title()) {
        None => {},
        Some(s1) => {
            lemma_dec_quoted_sound(s1);
            match dec_quoted(s1) {
                None => {},
                Some((title, s2)) => {
                    lemma_dec_lit_sound(s2, lit_priority());
                    match dec_lit(s2, lit_priority()) {
                        None => {},
                        Some(s3) => {
                            lemma_dec_priority_sound(s3);
                            match dec_priority(s3) {
                                None => {},
                                Some((pr, s4)) => {
                                    lemma_dec_lit_sound(s4, lit_completed());
                                    match dec_lit(s4, lit_completed()) {
                                        None => {},
                                        Some(s5) => {
                                            lemma_dec_bool_sound(s5);
                                            match dec_bool(s5) {
                                                None => {},
                                                Some((b, s6)) => {
                                                    lemma_dec_lit_sound(s6, lit_category());
                                                    match dec_lit(s6, lit_category()) {
                                                        None => {},
                                                        Some(s7) => {
                                                            lemma_dec_category_sound(s7);
                                                            match dec_category(s7) {
                                                                None => {},
                                                                Some((c, s8)) => {
                                                                    lemma_dec_lit_sound(
                                                                        s8,
                                                                        seq!['}'],
                                                                    );
                                                                    match dec_lit(s8, seq!['}']) {
                                                                        None => {},
                                                                        Some(s9) => {
                                                                            let t = TaskView {
                                                                                title: title,
                                                                                priority: pr,
                                                                                completed: b,
                                                                                category: c,
                                                                            };
                                                                            lemma_dec_task_sound_glue(
                                                                                t, s, s1, s2, s3,
                                                                                s4, s5, s6, s7,
                                                                                s8, s9,
                                                                            );
                                                                        },
                                                                    }
                                                                },
                                                            }
                                                        },
                                                    }
                                                },
                                            }
                                        },
                                    }
                                },
                            }
                        },
                    }
                },
            }
        },
    }
}

/// Reassembles a task record from the pieces its decoding consumed.
#[verifier::rlimit(100)]
proof fn lemma_dec_task_sound_glue(
    t: TaskView,
    s: Seq<char>,
    s1: Seq<char>,
    s2: Seq<char>,
    s3: Seq<char>,
    s4: Seq<char>,
    s5: Seq<char>,
    s6: Seq<char>,
    s7: Seq<char>,
    s8: Seq<char>,
    s9: Seq<char>,
)
    requires
        s == lit_title() + s1,
        s1 == enc_quoted(t.title) + s2,
        s2 == lit_priority() + s3,
        s3 == enc_priority(t.priority) + s4,
        s4 == lit_completed() + s5,
        s5 == enc_bool(t.completed) + s6,
        s6 == lit_category() + s7,
        s7 == enc_category(t.category) + s8,
        s8 == seq!['}'] + s9,
    ensures
        s == enc_task(t) + s9,
{
    assert(s7 =~= enc_category(t.category) + (seq!['}'] + s9));
    assert(s6 =~= lit_category() + (enc_category(t.category) + (seq!['}'] + s9)));
    assert(s5 =~= enc_bool(t.completed) + (lit_category() + (enc_category(t.category) + (seq!['}']
        + s9))));
    assert(s4 =~= lit_completed() + (enc_bool(t.completed) + (lit_category() + (enc_category(
        t.category,
    ) + (seq!['}'] + s9)))));
    assert(s3 =~= enc_priority(t.priority) + (lit_completed() + (enc_bool(t.completed) + (
    lit_category() + (enc_category(t.category) + (seq!['}'] + s9))))));
    assert(s2 =~= lit_priority() + (enc_priority(t.priority) + (lit_completed() + (enc_bool(
        t.completed,
    ) + (lit_category() + (enc_category(t.category) + (seq!['}'] + s9)))))));
    assert(s1 =~= enc_quoted(t.title) + (lit_priority() + (enc_priority(t.priority) + (
    lit_completed() + (enc_bool(t.completed) + (lit_category() + (enc_category(t.category) + (
    seq!['}'] + s9))))))));
    assert(s =~= lit_title() + (enc_quoted(t.title) + (lit_priority() + (enc_priority(t.priority)
        + (lit_completed() + (enc_bool(t.completed) + (lit_category() + (enc_category(t.category)
        + (seq!['}'] + s9)))))))));
    assert(enc_task(t) + s9 =~= lit_title() + (enc_quoted(t.title) + (lit_priority() + (
    enc_priority(t.priority) + (lit_completed() + (enc_bool(t.completed) + (lit_category() + (
    enc_category(t.category) + (seq!['}'] + s9)))))))));
}

/// A decoded tail came from its encoding.
#[verifier::rlimit(100)]
proof fn lemma_dec_tasks_tail_sound(s: Seq<char>)
    ensures
        dec_tasks_tail(s) matches Some(p) ==> s == enc_tasks_tail(p.0) + p.1,
    decreases s.len(),
{
    if s.len() >= 1 && s[0] == ']' {
        match dec_tasks_tail(s) {
            Some(p) => {
                assert(p.0 =~= Seq::<TaskView>::empty());
                assert(s =~= seq![']'] + s.drop_first());
            },
            None => {},
        }
    } else if s.len() >= 1 && s[0] == ',' {
        lemma_dec_task_sound(s.drop_first());
        match dec_task(s.drop_first()) {
            Some((t, r)) => {
                if r.len() < s.len() {
                    lemma_dec_tasks_tail_sound(r);
                    match dec_tasks_tail(r) {
                        Some((ts, r2)) => {
                            let whole = seq![t] + ts;
                            assert(whole[0] == t);
                            assert(whole.drop_first() =~= ts);
                            assert(s.drop_first() =~= enc_task(t) + (enc_tasks_tail(ts) + r2));
                            assert(s =~= seq![','] + (enc_task(t) + (enc_tasks_tail(ts) + r2)));
                            assert(enc_tasks_tail(whole) + r2 =~= seq![','] + (enc_task(t) + (
                            enc_tasks_tail(ts) + r2)));
                        },
                        None => {},
                    }
                }
            },
            None => {},
        }
    }
}

/// Soundness of the whole decoder: a text that decodes is exactly the
/// encoding of the collection it decodes to. Together with the round trip
/// below, the readable texts are precisely the written ones.
pub proof fn lemma_dec_tasks_sound(s: Seq<char>)
    ensures
        dec_tasks(s) matches Some(ts) ==> s == enc_tasks(ts),
{
    lemma_dec_lit_sound(s, seq!['[']);
    match dec_lit(s, seq!['[']) {
        None => {},
        Some(s1) => {
            if s1.len() >= 1 && s1[0] == ']' {
                if s1.len() == 1 {
                    assert(s1 =~= seq![']']);
                    assert(s =~= seq!['[', ']']);
                }
            } else {
                lemma_dec_task_sound(s1);
                match dec_task(s1) {
                    Some((t, r)) => {
                        lemma_dec_tasks_tail_sound(r);
                        match dec_tasks_tail(r) {
                            Some((ts, r2)) => {
                                if r2.len() == 0 {
                                    let whole = seq![t] + ts;
                                    assert(whole[0] == t);
                                    assert(whole.drop_first() =~= ts);
                                    assert(r2 =~= Seq::<char>::empty());
                                    assert(r =~= enc_tasks_tail(ts));
                                    assert(s =~= enc_tasks(whole));
                                }
                            },
                            None => {},
                        }
                    },
                    None => {},
                }
            }
        },
    }
}

// ===== A decoded collection is well-formed =====

/// A decoded task record is well-formed: the decoder refuses an empty title
/// and only produces priorities 1 to 3.
proof fn lemma_dec_task_wf(s: Seq<char>)
    ensures
        dec_task(s) matches Some(p) ==> task_wf(p.0),
{
}

/// Every task in a decoded tail is well-formed.
proof fn lemma_dec_tasks_tail_wf(s: Seq<char>)
    ensures
        dec_tasks_tail(s) matches Some(p) ==> forall|i: int|
            0 <= i < p.0.len() ==> task_wf(#[trigger] p.0[i]),
    decreases s.len(),
{
    if s.len() >= 1 && s[0] == ']' {
    } else if s.len() >= 1 && s[0] == ',' {
        match dec_task(s.drop_first()) {
            Some(p) => {
                lemma_dec_task_wf(s.drop_first());
                if p.1.len() < s.len() {
                    lemma_dec_tasks_tail_wf(p.1);
                }
            },
            None => {},
        }
    }
}

/// Every task in a decoded collection is well-formed.
pub proof fn lemma_dec_tasks_wf(s: Seq<char>)
    ensures
        dec_tasks(s) matches Some(ts) ==> forall|i: int|
            0 <= i < ts.len() ==> task_wf(#[trigger] ts[i]),
{
    match dec_lit(s, seq!['[']) {
        Some(s1) => {
            lemma_dec_task_wf(s1);
            match dec_task(s1) {
                Some(p) => {
                    lemma_dec_tasks_tail_wf(p.1);
                },
                None => {},
            }
        },
        None => {},
    }
}

// ===== The executable serializer =====

/// Relies on String::push: appends the given character at the end of the string.
#[verifier::external_body]
fn push_char(out: &mut String, c: char)
    ensures
        final(out)@ == old(out)@.push(c),
{
    out.push(c);
}

/// Encoding text piece by piece: the encoding of a concatenation is the
/// concatenation of the encodings.
proof fn lemma_enc_text_app(a: Seq<char>, b: Seq<char>)
    ensures
        enc_text(a + b) == enc_text(a) + enc_text(b),
    decreases a.len(),
{
    if a.len() == 0 {
        assert(a + b =~= b);
        assert(enc_text(a) + enc_text(b) =~= enc_text(b));
    } else {
        assert((a + b).drop_first() =~= a.drop_first() + b);
        lemma_enc_text_app(a.drop_first(), b);
        assert(enc_text(a) + enc_text(b) =~= esc_char(a[0]) + enc_text(a.drop_first()) + enc_text(b));
        assert(esc_char((a + b)[0]) + enc_text((a + b).drop_first()) =~= esc_char(a[0])
            + enc_text(a.drop_first()) + enc_text(b));
    }
}

/// Appends the escaped body of a text field.
fn append_escaped(out: &mut String, s: &str)
    ensures
        final(out)@ == old(out)@ + enc_text(s@),
{
    let n = s.unicode_len();
    let mut i: usize = 0;
    proof {
        assert(s@.take(0) =~= Seq::<char>::empty());
        assert(old(out)@ + enc_text(s@.take(0)) =~= old(out)@);
    }
    while i < n
        invariant
            n == s@.len(),
            i <= n,
            out@ == old(out)@ + enc_text(s@.take(i as int)),
        decreases n - i,
    {
        let c = s.get_char(i);
        let ghost prev = out@;
        if c == '"' || c == '\\' {
            push_char(out, '\\');
            push_char(out, c);
        } else {
            push_char(out, c);
        }
        proof {
            assert(out@ =~= prev + esc_char(c));
            lemma_enc_text_app(s@.take(i as int), seq![c]);
            assert(s@.take(i + 1) =~= s@.take(i as int) + seq![c]);
            assert(seq![c].drop_first() =~= Seq::<char>::empty());
            assert(enc_text(Seq::<char>::empty()) =~= Seq::<char>::empty());
            assert(enc_text(seq![c]) =~= esc_char(c) + enc_text(Seq::<char>::empty()));
            assert(enc_text(seq![c]) =~= esc_char(c));
            assert(out@ =~= old(out)@ + enc_text(s@.take(i + 1)));
        }
        i += 1;
    }
    proof {
        assert(s@.take(n as int) =~= s@);
    }
}

/// Appends a quoted text field, delimiters included.
fn append_quoted(out: &mut String, s: &str)
    ensures
        final(out)@ == old(out)@ + enc_quoted(s@),
{
    push_char(out, '"');
    append_escaped(out, s);
    push_char(out, '"');
    proof {
        assert(final(out)@ =~= old(out)@ + enc_quoted(s@));
    }
}

/// Appends the encoding of one task record.
#[verifier::rlimit(100)]
fn append_task(out: &mut String, t: &Task)
    ensures
        final(out)@ == old(out)@ + enc_task(t@),
{
    out.append("{\"title\":");
    proof {
        reveal_strlit("{\"title\":");
        assert(("{\"title\":")@ =~= lit_title());
    }
    append_quoted(out, t.title.as_str());
    out.append(",\"priority\":");
    proof {
        reveal_strlit(",\"priority\":");
        assert((",\"priority\":")@ =~= lit_priority());
    }
    if t.priority == 1 {
        out.append("1");
        proof {
            reveal_strlit("1");
            assert(("1")@ =~= enc_priority(t.priority));
        }
    } else if t.priority == 2 {
        out.append("2");
        proof {
            reveal_strlit("2");
            assert(("2")@ =~= enc_priority(t.priority));
        }
    } else {
        out.append("3");
        proof {
            reveal_strlit("3");
            assert(("3")@ =~= enc_priority(t.priority));
        }
    }
    out.append(",\"completed\":");
    proof {
        reveal_strlit(",\"completed\":");
        assert((",\"completed\":")@ =~= lit_completed());
    }
    if t.completed {
        out.append("true");
        proof {
            reveal_strlit("true");
            assert(("true")@ =~= enc_bool(true));
        }
    } else {
        out.append("false");
        proof {
            reveal_strlit("false");
            assert(("false")@ =~= enc_bool(false));
        }
    }
    out.append(",\"category\":");
    proof {
        reveal_strlit(",\"category\":");
        assert((",\"category\":")@ =~= lit_category());
    }
    match &t.category {
        Some(c) => {
            append_quoted(out, c.as_str());
        },
        None => {
            out.append("null");
            proof {
                reveal_strlit("null");
                assert(("null")@ =~= enc_category(t@.category));
            }
        },
    }
    push_char(out, '}');
    proof {
        assert(final(out)@ =~= old(out)@ + enc_task(t@));
    }
}

/// Writes a whole task collection as persisted text.
pub fn tasks_string(tasks: &Vec<Task>) -> (s: String)
    ensures
        s@ == enc_tasks(tasks@.map_values(|t: Task| t@)),
{
    let ghost vs = tasks@.map_values(|t: Task| t@);
    let mut out = String::new();
    if tasks.len() == 0 {
        out.append("[]");
        proof {
            reveal_strlit("[]");
            assert(out@ =~= enc_tasks(vs));
        }
        return out;
    }
    push_char(&mut out, '[');
    append_task(&mut out, &tasks[0]);
    let mut i: usize = 1;
    proof {
        assert(vs.skip(1) =~= vs.drop_first());
        assert(enc_tasks(vs) =~= out@ + enc_tasks_tail(vs.skip(1)));
    }
    while i < tasks.len()
        invariant
            1 <= i <= vs.len(),
            vs == tasks@.map_values(|t: Task| t@),
            enc_tasks(vs) == out@ + enc_tasks_tail(vs.skip(i as int)),
        decreases vs.len() - i,
    {
        let ghost prev = out@;
        push_char(&mut out, ',');
        append_task(&mut out, &tasks[i]);
        proof {
            assert(vs.skip(i as int).len() > 0);
            assert(vs.skip(i as int)[0] == vs[i as int]);
            assert(vs.skip(i as int).drop_first() =~= vs.skip(i + 1));
            assert(enc_tasks_tail(vs.skip(i as int)) =~= seq![','] + enc_task(vs[i as int])
                + enc_tasks_tail(vs.skip(i + 1)));
            assert(out@ =~= prev + seq![','] + enc_task(vs[i as int]));
            assert(enc_tasks(vs) =~= out@ + enc_tasks_tail(vs.skip(i + 1)));
        }
        i += 1;
    }
    proof {
        assert(vs.skip(vs.len() as int) =~= Seq::<TaskView>::empty());
        assert(enc_tasks(vs) =~= out@ + seq![']']);
    }
    push_char(&mut out, ']');
    proof {
        assert(out@ =~= enc_tasks(vs));
    }
    out
}

// ===== The executable parser =====

/// Prepending already-decoded text to the result of decoding the rest.
pub open spec fn text_step(acc: Seq<char>, r: Option<(Seq<char>, Seq<char>)>) -> Option<(Seq<char>, Seq<char>)> {
    match r {
        Some(p) => Some((acc + p.0, p.1)),
        None => None,
    }
}

/// Consumes the exact text `l` at position `i`.
fn p_lit(s: &str, i: usize, l: &str) -> (r: Option<usize>)
    requires
        i <= s@.len(),
    ensures
        match r {
            Some(j) => i <= j <= s@.len() && dec_lit(s@.skip(i as int), l@) == Some(
                s@.skip(j as int),
            ),
            None => dec_lit(s@.skip(i as int), l@) is None,
        },
{
    let n = s.unicode_len();
    let m = l.unicode_len();
    if m > n - i {
        return None;
    }
    let mut j: usize = 0;
    while j < m
        invariant
            n == s@.len(),
            m == l@.len(),
            i + m <= n,
            j <= m,
            forall|t: int| 0 <= t < j ==> s@[i + t] == l@[t],
        decreases m - j,
    {
        if s.get_char(i + j) != l.get_char(j) {
            proof {
                assert(s@.skip(i as int).take(m as int)[j as int] == s@[i + j]);
            }
            return None;
        }
        j += 1;
    }
    proof {
        assert(s@.skip(i as int).take(m as int) =~= l@);
        assert(s@.skip(i as int).skip(m as int) =~= s@.skip(i + m));
    }
    Some(i + m)
}

/// Consumes the body of a quoted field at position `i`, closing quote included.
fn p_text(s: &str, i: usize) -> (r: Option<(String, usize)>)
    requires
        i <= s@.len(),
    ensures
        match r {
            Some(p) => i <= p.1 <= s@.len() && dec_text(s@.skip(i as int)) == Some(
                (p.0@, s@.skip(p.1 as int)),
            ),
            None => dec_text(s@.skip(i as int)) is None,
        },
{
    let n = s.unicode_len();
    let mut acc = String::new();
    let mut pos: usize = i;
    loop
        invariant
            n == s@.len(),
            i <= pos <= n,
            dec_text(s@.skip(i as int)) == text_step(acc@, dec_text(s@.skip(pos as int))),
        decreases n - pos,
    {
        if pos >= n {
            proof {
                assert(s@.skip(pos as int).len() == 0);
            }
            return None;
        }
        let c = s.get_char(pos);
        proof {
            assert(s@.skip(pos as int)[0] == s@[pos as int]);
            assert(s@.skip(pos as int).len() == n - pos);
        }
        if c == '"' {
            proof {
                assert(s@.skip(pos as int).drop_first() =~= s@.skip(pos + 1));
                assert(acc@ + Seq::<char>::empty() =~= acc@);
            }
            return Some((acc, pos + 1));
        } else if c == '\\' {
            if pos + 1 >= n {
                return None;
            }
            let c2 = s.get_char(pos + 1);
            proof {
                assert(s@.skip(pos as int)[1] == s@[pos + 1]);
            }
            if c2 == '"' || c2 == '\\' {
                let ghost prev = acc@;
                push_char(&mut acc, c2);
                proof {
                    assert(s@.skip(pos as int).skip(2) =~= s@.skip(pos + 2));
                    match dec_text(s@.skip(pos + 2)) {
                        Some(p) => {
                            assert(prev + (seq![c2] + p.0) =~= acc@ + p.0);
                        },
                        None => {},
                    }
                }
                pos = pos + 2;
            } else {
                return None;
            }
        } else {
            let ghost prev = acc@;
            push_char(&mut acc, c);
            proof {
                assert(s@.skip(pos as int).drop_first() =~= s@.skip(pos + 1));
                match dec_text(s@.skip(pos + 1)) {
                    Some(p) => {
                        assert(prev + (seq![c] + p.0) =~= acc@ + p.0);
                    },
                    None => {},
                }
            }
            pos = pos + 1;
        }
    }
}

/// Consumes a quoted field at position `i`, delimiters included.
fn p_quoted(s: &str, i: usize) -> (r: Option<(String, usize)>)
    requires
        i <= s@.len(),
    ensures
        match r {
            Some(p) => i <= p.1 <= s@.len() && dec_quoted(s@.skip(i as int)) == Some(
                (p.0@, s@.skip(p.1 as int)),
            ),
            None => dec_quoted(s@.skip(i as int)) is None,
        },
{
    proof {
        reveal_strlit("\"");
        assert(("\"")@ =~= seq!['"']);
    }
    match p_lit(s, i, "\"") {
        Some(j) => p_text(s, j),
        None => None,
    }
}

/// Consumes a priority digit at position `i`.
fn p_priority(s: &str, i: usize) -> (r: Option<(u8, usize)>)
    requires
        i <= s@.len(),
    ensures
        match r {
            Some(p) => i <= p.1 <= s@.len() && dec_priority(s@.skip(i as int)) == Some(
                (p.0, s@.skip(p.1 as int)),
            ),
            None => dec_priority(s@.skip(i as int)) is None,
        },
{
    let n = s.unicode_len();
    if i >= n {
        proof {
            assert(s@.skip(i as int).len() == 0);
        }
        return None;
    }
    let c = s.get_char(i);
    proof {
        assert(s@.skip(i as int)[0] == s@[i as int]);
        assert(s@.skip(i as int).drop_first() =~= s@.skip(i + 1));
    }
    if c == '1' {
        Some((1, i + 1))
    } else if c == '2' {
        Some((2, i + 1))
    } else if c == '3' {
        Some((3, i + 1))
    } else {
        None
    }
}

/// Consumes a completion flag at position `i`.
fn p_bool(s: &str, i: usize) -> (r: Option<(bool, usize)>)
    requires
        i <= s@.len(),
    ensures
        match r {
            Some(p) => i <= p.1 <= s@.len() && dec_bool(s@.skip(i as int)) == Some(
                (p.0, s@.skip(p.1 as int)),
            ),
            None => dec_bool(s@.skip(i as int)) is None,
        },
{
    proof {
        reveal_strlit("true");
        reveal_strlit("false");
        assert(("true")@ =~= enc_bool(true));
        assert(("false")@ =~= enc_bool(false));
    }
    match p_lit(s, i, "true") {
        Some(j) => Some((true, j)),
        None => match p_lit(s, i, "false") {
            Some(j) => Some((false, j)),
            None => None,
        },
    }
}

/// Consumes an optional category at position `i`.
fn p_category(s: &str, i: usize) -> (r: Option<(Option<String>, usize)>)
    requires
        i <= s@.len(),
    ensures
        match r {
            Some(p) => i <= p.1 <= s@.len() && dec_category(s@.skip(i as int)) == Some(
                (opt_text_view(p.0), s@.skip(p.1 as int)),
            ),
            None => dec_category(s@.skip(i as int)) is None,
        },
{
    proof {
        reveal_strlit("null");
        assert(("null")@ =~= seq!['n', 'u', 'l', 'l']);
    }
    match p_lit(s, i, "null") {
        Some(j) => Some((None, j)),
        None => match p_quoted(s, i) {
            Some(p) => Some((Some(p.0), p.1)),
            None => None,
        },
    }
}

/// Consumes one task record at position `i`.
fn p_task(s: &str, i: usize) -> (r: Option<(Task, usize)>)
    requires
        i <= s@.len(),
    ensures
        match r {
            Some(p) => i <= p.1 <= s@.len() && dec_task(s@.skip(i as int)) == Some(
                (p.0@, s@.skip(p.1 as int)),
            ),
            None => dec_task(s@.skip(i as int)) is None,
        },
{
    proof {
        reveal_strlit("{\"title\":");
        reveal_strlit(",\"priority\":");
        reveal_strlit(",\"completed\":");
        reveal_strlit(",\"category\":");
        reveal_strlit("}");
        assert(("{\"title\":")@ =~= lit_title());
        assert((",\"priority\":")@ =~= lit_priority());
        assert((",\"completed\":")@ =~= lit_completed());
        assert((",\"category\":")@ =~= lit_category());
        assert(("}")@ =~= seq!['}']);
    }
    let j1 = match p_lit(s, i, "{\"title\":") {
        Some(j) => j,
        None => {
            return None;
        },
    };
    let (title, j2) = match p_quoted(s, j1) {
        Some(p) => p,
        None => {
            return None;
        },
    };
    if title.as_str().is_empty() {
        return None;
    }
    let j3 = match p_lit(s, j2, ",\"priority\":") {
        Some(j) => j,
        None => {
            return None;
        },
    };
    let (pr, j4) = match p_priority(s, j3) {
        Some(p) => p,
        None => {
            return None;
        },
    };
    let j5 = match p_lit(s, j4, ",\"completed\":") {
        Some(j) => j,
        None => {
            return None;
        },
    };
    let (cm, j6) = match p_bool(s, j5) {
        Some(p) => p,
        None => {
            return None;
        },
    };
    let j7 = match p_lit(s, j6, ",\"category\":") {
        Some(j) => j,
        None => {
            return None;
        },
    };
    let (cat, j8) = match p_category(s, j7) {
        Some(p) => p,
        None => {
            return None;
        },
    };
    let j9 = match p_lit(s, j8, "}") {
        Some(j) => j,
        None => {
            return None;
        },
    };
    let t = Task { title, priority: pr, completed: cm, category: cat };
    Some((t, j9))
}

/// Parses persisted text as a whole task collection; `None` means the text
/// is not a valid snapshot.
#[verifier::rlimit(100)]
pub fn parse_tasks(s: &str) -> (r: Option<Vec<Task>>)
    ensures
        match r {
            Some(v) => dec_tasks(s@) == Some(v@.map_values(|t: Task| t@)),
            None => dec_tasks(s@) is None,
        },
{
    let n = s.unicode_len();
    proof {
        assert(s@.skip(0) =~= s@);
        reveal_strlit("[");
        assert(("[")@ =~= seq!['[']);
    }
    let j0 = match p_lit(s, 0, "[") {
        Some(j) => j,
        None => {
            return None;
        },
    };
    if j0 < n && s.get_char(j0) == ']' {
        proof {
            assert(s@.skip(j0 as int)[0] == s@[j0 as int]);
            assert(s@.skip(j0 as int).len() == n - j0);
        }
        if n == j0 + 1 {
            let v: Vec<Task> = Vec::new();
            proof {
                assert(v@.map_values(|t: Task| t@) =~= Seq::<TaskView>::empty());
            }
            return Some(v);
        } else {
            return None;
        }
    }
    proof {
        if j0 < n {
            assert(s@.skip(j0 as int)[0] == s@[j0 as int]);
        } else {
            assert(s@.skip(j0 as int).len() == 0);
        }
    }
    let (t0, k0) = match p_task(s, j0) {
        Some(p) => p,
        None => {
            return None;
        },
    };
    let mut out: Vec<Task> = Vec::new();
    out.push(t0);
    let mut pos: usize = k0;
    proof {
        assert(out@.map_values(|x: Task| x@) =~= seq![t0@]);
        match dec_tasks_tail(s@.skip(pos as int)) {
            Some(p) => {
                assert(seq![t0@] + p.0 =~= out@.map_values(|x: Task| x@) + p.0);
            },
            None => {},
        }
    }
    loop
        invariant
            n == s@.len(),
            pos <= n,
            dec_tasks(s@) == (match dec_tasks_tail(s@.skip(pos as int)) {
                Some(p) => if p.1.len() == 0 {
                    Some(out@.map_values(|x: Task| x@) + p.0)
                } else {
                    None
                },
                None => None,
            }),
        decreases n - pos,
    {
        if pos >= n {
            proof {
                assert(s@.skip(pos as int).len() == 0);
            }
            return None;
        }
        let c = s.get_char(pos);
        proof {
            assert(s@.skip(pos as int)[0] == s@[pos as int]);
            assert(s@.skip(pos as int).len() == n - pos);
        }
        if c == ']' {
            proof {
                assert(s@.skip(pos as int).drop_first() =~= s@.skip(pos + 1));
            }
            if n == pos + 1 {
                proof {
                    match dec_tasks_tail(s@.skip(pos as int)) {
                        Some(p) => {
                            assert(out@.map_values(|x: Task| x@) + Seq::<TaskView>::empty()
                                =~= out@.map_values(|x: Task| x@));
                        },
                        None => {},
                    }
                }
                return Some(out);
            } else {
                return None;
            }
        } else if c == ',' {
            let (t, k2) = match p_task(s, pos + 1) {
                Some(p) => p,
                None => {
                    proof {
                        assert(s@.skip(pos as int).drop_first() =~= s@.skip(pos + 1));
                    }
                    return None;
                },
            };
            let ghost prev = out@;
            out.push(t);
            proof {
                assert(s@.skip(pos as int).drop_first() =~= s@.skip(pos + 1));
                assert(s@.skip(k2 as int).len() < s@.skip(pos as int).len());
                assert(out@.map_values(|x: Task| x@) =~= prev.map_values(|x: Task| x@).push(t@));
                match dec_tasks_tail(s@.skip(k2 as int)) {
                    Some(p) => {
                        assert(prev.map_values(|x: Task| x@) + (seq![t@] + p.0) =~= out@.map_values(
                            |x: Task| x@,
                        ) + p.0);
                    },
                    None => {},
                }
            }
            pos = k2;
        } else {
            return None;
        }
    }
}

} // verus!
