//! The textual form of the store: one JSON object with the two record
//! arrays. Serialization is defined character by character; parsing is
//! defined as a spec-level parser that the executable parser provably
//! follows, and parsing what serialization wrote provably yields the store
//! that was written.

use vstd::prelude::*;
use crate::entities::{Note, NoteV, TodoItem, TodoV};
use crate::ext::{
    parse_rfc3339_ts, parse_uuid, push_char, rfc3339_of, rfc3339_val, ts_to_rfc3339,
    uuid_str_of, uuid_to_string, uuid_val, valid_ts, MAX_TS_MILLIS,
};
use crate::store::{notes_view, todos_view, AppData, StoreV};

verus! {

// ---------------------------------------------------------------------------
// Escaping of string values
// ---------------------------------------------------------------------------
/// How one character appears inside a JSON string value: the quote, the
/// backslash and the three common control characters are escaped, everything
/// else stands for itself.
pub open spec fn esc_char(c: char) -> Seq<char> {
    if c == '"' {
        seq!['\\', '"']
    } else if c == '\\' {
        seq!['\\', '\\']
    } else if c == '\n' {
        seq!['\\', 'n']
    } else if c == '\t' {
        seq!['\\', 't']
    } else if c == '\r' {
        seq!['\\', 'r']
    } else {
        seq![c]
    }
}

/// A whole string value, escaped.
pub open spec fn esc(s: Seq<char>) -> Seq<char>
    decreases s.len(),
{
    if s.len() == 0 {
        Seq::empty()
    } else {
        esc_char(s[0]) + esc(s.drop_first())
    }
}

/// A JSON string literal: the escaped value between quotes.
pub open spec fn jstr(v: Seq<char>) -> Seq<char> {
    seq!['"'] + esc(v) + seq!['"']
}

/// Escaping one character more appends that character's escape.
pub proof fn lemma_esc_snoc(s: Seq<char>, c: char)
    ensures
        esc(s.push(c)) == esc(s) + esc_char(c),
    decreases s.len(),
{
    if s.len() == 0 {
        assert(s.push(c).drop_first() =~= Seq::<char>::empty());
        assert(s.push(c)[0] == c);
        assert(esc(s.push(c)) == esc_char(c) + esc(s.push(c).drop_first()));
        assert(esc(Seq::<char>::empty()) == Seq::<char>::empty());
        assert(esc_char(c) + Seq::<char>::empty() =~= Seq::<char>::empty() + esc_char(c));
        assert(esc(s) =~= Seq::<char>::empty());
    } else {
        assert(s.push(c).drop_first() =~= s.drop_first().push(c));
        lemma_esc_snoc(s.drop_first(), c);
        assert(s.push(c)[0] == s[0]);
        assert(esc(s.push(c)) == esc_char(s[0]) + (esc(s.drop_first()) + esc_char(c)));
        assert(esc_char(s[0]) + (esc(s.drop_first()) + esc_char(c)) =~= (esc_char(s[0]) + esc(
            s.drop_first(),
        )) + esc_char(c));
    }
}

// ---------------------------------------------------------------------------
// The spec-level parser, piece by piece
// ---------------------------------------------------------------------------
/// Consumes the exact text `l` from the front of `s`.
pub open spec fn p_lit(s: Seq<char>, l: Seq<char>) -> Option<Seq<char>> {
    if l.len() <= s.len() && s.take(l.len() as int) == l {
        Some(s.skip(l.len() as int))
    } else {
        None
    }
}

/// Consuming a literal off a text that begins with it leaves the remainder.
pub proof fn lemma_p_lit_complete(l: Seq<char>, rest: Seq<char>)
    ensures
        p_lit(l + rest, l) == Some(rest),
{
    assert((l + rest).take(l.len() as int) =~= l);
    assert((l + rest).skip(l.len() as int) =~= rest);
}

/// The character named by a short escape, if the escape is one the format
/// writes.
pub open spec fn unesc_short(c: char) -> Option<char> {
    if c == '"' {
        Some('"')
    } else if c == '\\' {
        Some('\\')
    } else if c == 'n' {
        Some('\n')
    } else if c == 't' {
        Some('\t')
    } else if c == 'r' {
        Some('\r')
    } else {
        None
    }
}

/// Reads the body of a JSON string up to and including its closing quote,
/// undoing the escapes; yields the value and the remainder.
pub open spec fn p_unesc(s: Seq<char>) -> Option<(Seq<char>, Seq<char>)>
    decreases s.len(),
{
    if s.len() == 0 {
        None
    } else if s[0] == '"' {
        Some((Seq::empty(), s.drop_first()))
    } else if s[0] == '\\' {
        if s.len() < 2 {
            None
        } else {
            match unesc_short(s[1]) {
                None => None,
                Some(c) => match p_unesc(s.skip(2)) {
                    None => None,
                    Some(p) => Some((seq![c] + p.0, p.1)),
                },
            }
        }
    } else {
        match p_unesc(s.drop_first()) {
            None => None,
            Some(p) => Some((seq![s[0]] + p.0, p.1)),
        }
    }
}

/// Reading an escaped value followed by the closing quote yields the value
/// back, whatever it is.
pub proof fn lemma_p_unesc_complete(v: Seq<char>, rest: Seq<char>)
    ensures
        p_unesc(esc(v) + seq!['"'] + rest) == Some((v, rest)),
    decreases v.len(),
{
    let s = esc(v) + seq!['"'] + rest;
    if v.len() == 0 {
        assert(s =~= seq!['"'] + rest);
        assert(s[0] == '"');
        assert(s.drop_first() =~= rest);
    } else {
        let c = v[0];
        let tail = v.drop_first();
        lemma_p_unesc_complete(tail, rest);
        let s2 = esc(tail) + seq!['"'] + rest;
        assert(esc(v) == esc_char(c) + esc(tail));
        if c == '"' || c == '\\' || c == '\n' || c == '\t' || c == '\r' {
            assert(esc_char(c).len() == 2);
            assert(s =~= esc_char(c) + s2);
            assert(s[0] == '\\');
            assert(unesc_short(s[1]) == Some(c));
            assert(s.skip(2) =~= s2);
            assert(p_unesc(s) == Some((seq![c] + v.drop_first(), rest)));
            assert(seq![c] + v.drop_first() =~= v);
        } else {
            assert(esc_char(c) == seq![c]);
            assert(s =~= seq![c] + s2);
            assert(s[0] == c);
            assert(s[0] != '"' && s[0] != '\\');
            assert(s.drop_first() =~= s2);
            assert(p_unesc(s) == Some((seq![c] + v.drop_first(), rest)));
            assert(seq![c] + v.drop_first() =~= v);
        }
    }
}

/// Reads a whole JSON string literal: the opening quote, then the escaped
/// body and closing quote.
pub open spec fn p_jstr(s: Seq<char>) -> Option<(Seq<char>, Seq<char>)> {
    if s.len() > 0 && s[0] == '"' {
        p_unesc(s.drop_first())
    } else {
        None
    }
}

/// Reading a serialized string literal yields the value it was made from.
pub proof fn lemma_p_jstr_complete(v: Seq<char>, rest: Seq<char>)
    ensures
        p_jstr(jstr(v) + rest) == Some((v, rest)),
{
    let s = jstr(v) + rest;
    assert(s[0] == '"');
    assert(s.drop_first() =~= esc(v) + seq!['"'] + rest);
    lemma_p_unesc_complete(v, rest);
}

/// Reads a JSON boolean.
pub open spec fn p_bool(s: Seq<char>) -> Option<(bool, Seq<char>)> {
    match p_lit(s, "true"@) {
        Some(r) => Some((true, r)),
        None => match p_lit(s, "false"@) {
            Some(r) => Some((false, r)),
            None => None,
        },
    }
}

/// The serialized form of a boolean.
pub open spec fn ser_bool(b: bool) -> Seq<char> {
    if b {
        "true"@
    } else {
        "false"@
    }
}

/// Reading a serialized boolean yields it back.
pub proof fn lemma_p_bool_complete(b: bool, rest: Seq<char>)
    ensures
        p_bool(ser_bool(b) + rest) == Some((b, rest)),
{
    reveal_strlit("true");
    reveal_strlit("false");
    if b {
        lemma_p_lit_complete("true"@, rest);
    } else {
        lemma_p_lit_complete("false"@, rest);
        let s = "false"@ + rest;
        assert(s[0] == 'f');
        assert(p_lit(s, "true"@) is None) by {
            if p_lit(s, "true"@) is Some {
                assert(s.take(4)[0] == "true"@[0]);
            }
        }
    }
}

/// Reads either `null` or a JSON string literal.
pub open spec fn p_null_or_jstr(s: Seq<char>) -> Option<(Option<Seq<char>>, Seq<char>)> {
    match p_lit(s, "null"@) {
        Some(r) => Some((None, r)),
        None => match p_jstr(s) {
            Some((v, r)) => Some((Some(v), r)),
            None => None,
        },
    }
}

/// The serialized form of an optional string value.
pub open spec fn ser_null_or_jstr(v: Option<Seq<char>>) -> Seq<char> {
    match v {
        None => "null"@,
        Some(x) => jstr(x),
    }
}

/// Reading a serialized optional string yields it back.
pub proof fn lemma_p_null_or_jstr_complete(v: Option<Seq<char>>, rest: Seq<char>)
    ensures
        p_null_or_jstr(ser_null_or_jstr(v) + rest) == Some((v, rest)),
{
    reveal_strlit("null");
    match v {
        None => {
            lemma_p_lit_complete("null"@, rest);
        },
        Some(x) => {
            lemma_p_jstr_complete(x, rest);
            let s = jstr(x) + rest;
            assert(s[0] == '"');
            assert(p_lit(s, "null"@) is None) by {
                if p_lit(s, "null"@) is Some {
                    assert(s.take(4)[0] == "null"@[0]);
                }
            }
        },
    }
}

// ---------------------------------------------------------------------------
// Records, before and after decoding of identifier and timestamps
// ---------------------------------------------------------------------------
/// A note as it stands in the file: identifier and timestamps still text.
pub ghost struct RawNote {
    pub id: Seq<char>,
    pub title: Seq<char>,
    pub content: Seq<char>,
    pub created_at: Seq<char>,
    pub updated_at: Seq<char>,
}

/// A checklist item as it stands in the file.
pub ghost struct RawTodo {
    pub id: Seq<char>,
    pub text: Seq<char>,
    pub completed: bool,
    pub completed_at: Option<Seq<char>>,
    pub created_at: Seq<char>,
}

/// The textual fields that stand for a note: its identifier and timestamps
/// rendered as the outside crates render them.
pub open spec fn raw_of_note(n: NoteV) -> RawNote {
    RawNote {
        id: uuid_str_of(n.id),
        title: n.title,
        content: n.content,
        created_at: rfc3339_of(n.created_at),
        updated_at: rfc3339_of(n.updated_at),
    }
}

/// The textual fields that stand for a checklist item.
pub open spec fn raw_of_todo(t: TodoV) -> RawTodo {
    RawTodo {
        id: uuid_str_of(t.id),
        text: t.text,
        completed: t.completed,
        completed_at: match t.completed_at {
            None => None,
            Some(ts) => Some(rfc3339_of(ts)),
        },
        created_at: rfc3339_of(t.created_at),
    }
}

/// One serialized note object.
pub open spec fn ser_note_raw(n: RawNote) -> Seq<char> {
    "{\"id\":"@ + (jstr(n.id) + (",\"title\":"@ + (jstr(n.title) + (",\"content\":"@ + (jstr(
        n.content,
    ) + (",\"created_at\":"@ + (jstr(n.created_at) + (",\"updated_at\":"@ + (jstr(n.updated_at)
        + "}"@)))))))))
}

/// One serialized checklist item object.
pub open spec fn ser_todo_raw(t: RawTodo) -> Seq<char> {
    "{\"id\":"@ + (jstr(t.id) + (",\"text\":"@ + (jstr(t.text) + (",\"completed\":"@ + (ser_bool(
        t.completed,
    ) + (",\"completed_at\":"@ + (ser_null_or_jstr(t.completed_at) + (",\"created_at\":"@ + (jstr(
        t.created_at,
    ) + "}"@)))))))))
}

pub open spec fn ser_note(n: NoteV) -> Seq<char> {
    ser_note_raw(raw_of_note(n))
}

pub open spec fn ser_todo(t: TodoV) -> Seq<char> {
    ser_todo_raw(raw_of_todo(t))
}

/// Reads one note object, fields still text.
pub open spec fn p_note_raw(s: Seq<char>) -> Option<(RawNote, Seq<char>)> {
    match p_lit(s, "{\"id\":"@) {
        None => None,
        Some(s1) => match p_jstr(s1) {
            None => None,
            Some((id, s2)) => match p_lit(s2, ",\"title\":"@) {
                None => None,
                Some(s3) => match p_jstr(s3) {
                    None => None,
                    Some((title, s4)) => match p_lit(s4, ",\"content\":"@) {
                        None => None,
                        Some(s5) => match p_jstr(s5) {
                            None => None,
                            Some((content, s6)) => match p_lit(s6, ",\"created_at\":"@) {
                                None => None,
                                Some(s7) => match p_jstr(s7) {
                                    None => None,
                                    Some((ca, s8)) => match p_lit(s8, ",\"updated_at\":"@) {
                                        None => None,
                                        Some(s9) => match p_jstr(s9) {
                                            None => None,
                                            Some((ua, s10)) => match p_lit(s10, "}"@) {
                                                None => None,
                                                Some(s11) => Some(
                                                    (
                                                        RawNote {
                                                            id: id,
                                                            title: title,
                                                            content: content,
                                                            created_at: ca,
                                                            updated_at: ua,
                                                        },
                                                        s11,
                                                    ),
                                                ),
                                            },
                                        },
                                    },
                                },
                            },
                        },
                    },
                },
            },
        },
    }
}

/// Reads one checklist item object, fields still text.
pub open spec fn p_todo_raw(s: Seq<char>) -> Option<(RawTodo, Seq<char>)> {
    match p_lit(s, "{\"id\":"@) {
        None => None,
        Some(s1) => match p_jstr(s1) {
            None => None,
            Some((id, s2)) => match p_lit(s2, ",\"text\":"@) {
                None => None,
                Some(s3) => match p_jstr(s3) {
                    None => None,
                    Some((text, s4)) => match p_lit(s4, ",\"completed\":"@) {
                        None => None,
                        Some(s5) => match p_bool(s5) {
                            None => None,
                            Some((comp, s6)) => match p_lit(s6, ",\"completed_at\":"@) {
                                None => None,
                                Some(s7) => match p_null_or_jstr(s7) {
                                    None => None,
                                    Some((cat, s8)) => match p_lit(s8, ",\"created_at\":"@) {
                                        None => None,
                                        Some(s9) => match p_jstr(s9) {
                                            None => None,
                                            Some((cr, s10)) => match p_lit(s10, "}"@) {
                                                None => None,
                                                Some(s11) => Some(
                                                    (
                                                        RawTodo {
                                                            id: id,
                                                            text: text,
                                                            completed: comp,
                                                            completed_at: cat,
                                                            created_at: cr,
                                                        },
                                                        s11,
                                                    ),
                                                ),
                                            },
                                        },
                                    },
                                },
                            },
                        },
                    },
                },
            },
        },
    }
}

/// Reading a serialized note object yields its fields back.
pub proof fn lemma_p_note_raw_complete(n: RawNote, rest: Seq<char>)
    ensures
        p_note_raw(ser_note_raw(n) + rest) == Some((n, rest)),
{
    let u1 = "}"@ + rest;
    let u2 = jstr(n.updated_at) + u1;
    let u3 = ",\"updated_at\":"@ + u2;
    let u4 = jstr(n.created_at) + u3;
    let u5 = ",\"created_at\":"@ + u4;
    let u6 = jstr(n.content) + u5;
    let u7 = ",\"content\":"@ + u6;
    let u8 = jstr(n.title) + u7;
    let u9 = ",\"title\":"@ + u8;
    let u10 = jstr(n.id) + u9;
    let s = ser_note_raw(n) + rest;
    assert(s =~= "{\"id\":"@ + u10);
    lemma_p_lit_complete("{\"id\":"@, u10);
    lemma_p_jstr_complete(n.id, u9);
    lemma_p_lit_complete(",\"title\":"@, u8);
    lemma_p_jstr_complete(n.title, u7);
    lemma_p_lit_complete(",\"content\":"@, u6);
    lemma_p_jstr_complete(n.content, u5);
    lemma_p_lit_complete(",\"created_at\":"@, u4);
    lemma_p_jstr_complete(n.created_at, u3);
    lemma_p_lit_complete(",\"updated_at\":"@, u2);
    lemma_p_jstr_complete(n.updated_at, u1);
    lemma_p_lit_complete("}"@, rest);
}

/// Reading a serialized checklist item object yields its fields back.
pub proof fn lemma_p_todo_raw_complete(t: RawTodo, rest: Seq<char>)
    ensures
        p_todo_raw(ser_todo_raw(t) + rest) == Some((t, rest)),
{
    let u1 = "}"@ + rest;
    let u2 = jstr(t.created_at) + u1;
    let u3 = ",\"created_at\":"@ + u2;
    let u4 = ser_null_or_jstr(t.completed_at) + u3;
    let u5 = ",\"completed_at\":"@ + u4;
    let u6 = ser_bool(t.completed) + u5;
    let u7 = ",\"completed\":"@ + u6;
    let u8 = jstr(t.text) + u7;
    let u9 = ",\"text\":"@ + u8;
    let u10 = jstr(t.id) + u9;
    let s = ser_todo_raw(t) + rest;
    assert(s =~= "{\"id\":"@ + u10);
    lemma_p_lit_complete("{\"id\":"@, u10);
    lemma_p_jstr_complete(t.id, u9);
    lemma_p_lit_complete(",\"text\":"@, u8);
    lemma_p_jstr_complete(t.text, u7);
    lemma_p_lit_complete(",\"completed\":"@, u6);
    lemma_p_bool_complete(t.completed, u5);
    lemma_p_lit_complete(",\"completed_at\":"@, u4);
    lemma_p_null_or_jstr_complete(t.completed_at, u3);
    lemma_p_lit_complete(",\"created_at\":"@, u2);
    lemma_p_jstr_complete(t.created_at, u1);
    lemma_p_lit_complete("}"@, rest);
}

// ---------------------------------------------------------------------------
// Decoding the textual fields
// ---------------------------------------------------------------------------
/// Decodes a raw note: the identifier through the uuid crate's parser, the
/// timestamps through chrono's, rejecting timestamps outside the
/// representable range.
pub open spec fn conv_note(r: RawNote) -> Option<NoteV> {
    match uuid_val(r.id) {
        None => None,
        Some(id) => match rfc3339_val(r.created_at) {
            None => None,
            Some(ca) => match rfc3339_val(r.updated_at) {
                None => None,
                Some(ua) => if valid_ts(ca) && valid_ts(ua) {
                    Some(NoteV { id: id, title: r.title, content: r.content, created_at: ca, updated_at: ua })
                } else {
                    None
                },
            },
        },
    }
}

/// Decodes a raw checklist item.
pub open spec fn conv_todo(r: RawTodo) -> Option<TodoV> {
    match uuid_val(r.id) {
        None => None,
        Some(id) => match rfc3339_val(r.created_at) {
            None => None,
            Some(cr) => if !valid_ts(cr) {
                None
            } else {
                match r.completed_at {
                    None => Some(
                        TodoV {
                            id: id,
                            text: r.text,
                            completed: r.completed,
                            created_at: cr,
                            completed_at: None,
                        },
                    ),
                    Some(cas) => match rfc3339_val(cas) {
                        None => None,
                        Some(ca) => if valid_ts(ca) {
                            Some(
                                TodoV {
                                    id: id,
                                    text: r.text,
                                    completed: r.completed,
                                    created_at: cr,
                                    completed_at: Some(ca),
                                },
                            )
                        } else {
                            None
                        },
                    },
                }
            },
        },
    }
}

/// Reads and decodes one note.
pub open spec fn p_note(s: Seq<char>) -> Option<(NoteV, Seq<char>)> {
    match p_note_raw(s) {
        None => None,
        Some((raw, r)) => match conv_note(raw) {
            None => None,
            Some(n) => Some((n, r)),
        },
    }
}

/// Reads and decodes one checklist item.
pub open spec fn p_todo(s: Seq<char>) -> Option<(TodoV, Seq<char>)> {
    match p_todo_raw(s) {
        None => None,
        Some((raw, r)) => match conv_todo(raw) {
            None => None,
            Some(t) => Some((t, r)),
        },
    }
}

// ---------------------------------------------------------------------------
// The arrays and the whole store
// ---------------------------------------------------------------------------
/// The serialized notes array body: the objects joined by commas.
pub open spec fn ser_notes(ns: Seq<NoteV>) -> Seq<char>
    decreases ns.len(),
{
    if ns.len() == 0 {
        Seq::empty()
    } else if ns.len() == 1 {
        ser_note(ns[0])
    } else {
        ser_notes(ns.drop_last()) + ","@ + ser_note(ns.last())
    }
}

/// The serialized items array body.
pub open spec fn ser_todos(ts: Seq<TodoV>) -> Seq<char>
    decreases ts.len(),
{
    if ts.len() == 0 {
        Seq::empty()
    } else if ts.len() == 1 {
        ser_todo(ts[0])
    } else {
        ser_todos(ts.drop_last()) + ","@ + ser_todo(ts.last())
    }
}

/// A non-empty array body starts with its first object.
pub proof fn lemma_ser_notes_head(ns: Seq<NoteV>)
    requires
        ns.len() > 0,
    ensures
        ns.len() == 1 ==> ser_notes(ns) == ser_note(ns[0]),
        ns.len() > 1 ==> ser_notes(ns) == ser_note(ns[0]) + ","@ + ser_notes(ns.drop_first()),
    decreases ns.len(),
{
    if ns.len() == 1 {
    } else if ns.len() == 2 {
        assert(ns.drop_last().len() == 1);
        assert(ns.drop_last()[0] == ns[0]);
        assert(ns.drop_first().len() == 1);
        assert(ns.drop_first()[0] == ns.last());
        assert(ser_notes(ns.drop_last()) == ser_note(ns[0]));
        assert(ser_notes(ns.drop_first()) == ser_note(ns.last()));
        assert(ser_notes(ns) == ser_note(ns[0]) + ","@ + ser_notes(ns.drop_first()));
    } else {
        lemma_ser_notes_head(ns.drop_last());
        assert(ns.drop_last()[0] == ns[0]);
        assert(ns.drop_first().drop_last() =~= ns.drop_last().drop_first());
        assert(ns.drop_first().last() == ns.last());
        assert(ser_notes(ns.drop_first()) == ser_notes(ns.drop_last().drop_first()) + ","@
            + ser_note(ns.last()));
        assert(ser_notes(ns) =~= ser_note(ns[0]) + ","@ + ser_notes(ns.drop_first()));
    }
}

/// A non-empty array body starts with its first object.
pub proof fn lemma_ser_todos_head(ts: Seq<TodoV>)
    requires
        ts.len() > 0,
    ensures
        ts.len() == 1 ==> ser_todos(ts) == ser_todo(ts[0]),
        ts.len() > 1 ==> ser_todos(ts) == ser_todo(ts[0]) + ","@ + ser_todos(ts.drop_first()),
    decreases ts.len(),
{
    if ts.len() == 1 {
    } else if ts.len() == 2 {
        assert(ts.drop_last().len() == 1);
        assert(ts.drop_last()[0] == ts[0]);
        assert(ts.drop_first().len() == 1);
        assert(ts.drop_first()[0] == ts.last());
        assert(ser_todos(ts.drop_last()) == ser_todo(ts[0]));
        assert(ser_todos(ts.drop_first()) == ser_todo(ts.last()));
        assert(ser_todos(ts) == ser_todo(ts[0]) + ","@ + ser_todos(ts.drop_first()));
    } else {
        lemma_ser_todos_head(ts.drop_last());
        assert(ts.drop_last()[0] == ts[0]);
        assert(ts.drop_first().drop_last() =~= ts.drop_last().drop_first());
        assert(ts.drop_first().last() == ts.last());
        assert(ser_todos(ts.drop_first()) == ser_todos(ts.drop_last().drop_first()) + ","@
            + ser_todo(ts.last()));
        assert(ser_todos(ts) =~= ser_todo(ts[0]) + ","@ + ser_todos(ts.drop_first()));
    }
}

/// Reads the notes array body up to and including the closing bracket.
pub open spec fn p_notes(s: Seq<char>) -> Option<(Seq<NoteV>, Seq<char>)>
    decreases s.len(),
{
    if s.len() == 0 {
        None
    } else if s[0] == ']' {
        Some((Seq::empty(), s.drop_first()))
    } else {
        match p_note(s) {
            None => None,
            Some((n, r)) => if r.len() >= s.len() {
                None
            } else if r.len() > 0 && r[0] == ',' {
                match p_notes(r.drop_first()) {
                    None => None,
                    Some((ns, r2)) => Some((seq![n] + ns, r2)),
                }
            } else if r.len() > 0 && r[0] == ']' {
                Some((seq![n], r.drop_first()))
            } else {
                None
            },
        }
    }
}

/// Reads the items array body up to and including the closing bracket.
pub open spec fn p_todos(s: Seq<char>) -> Option<(Seq<TodoV>, Seq<char>)>
    decreases s.len(),
{
    if s.len() == 0 {
        None
    } else if s[0] == ']' {
        Some((Seq::empty(), s.drop_first()))
    } else {
        match p_todo(s) {
            None => None,
            Some((t, r)) => if r.len() >= s.len() {
                None
            } else if r.len() > 0 && r[0] == ',' {
                match p_todos(r.drop_first()) {
                    None => None,
                    Some((ts, r2)) => Some((seq![t] + ts, r2)),
                }
            } else if r.len() > 0 && r[0] == ']' {
                Some((seq![t], r.drop_first()))
            } else {
                None
            },
        }
    }
}

/// The whole serialized store.
pub open spec fn ser_store(d: StoreV) -> Seq<char> {
    "{\"notes\":["@ + (ser_notes(d.notes) + ("]"@ + (",\"todos\":["@ + (ser_todos(d.todos) + (
    "]"@ + "}"@)))))
}

/// Reads the whole store; only a text that is one store object and nothing
/// more parses.
pub open spec fn p_store(s: Seq<char>) -> Option<StoreV> {
    match p_lit(s, "{\"notes\":["@) {
        None => None,
        Some(s1) => match p_notes(s1) {
            None => None,
            Some((ns, s2)) => match p_lit(s2, ",\"todos\":["@) {
                None => None,
                Some(s3) => match p_todos(s3) {
                    None => None,
                    Some((ts, s4)) => match p_lit(s4, "}"@) {
                        None => None,
                        Some(s5) => if s5.len() == 0 {
                            Some(StoreV { notes: ns, todos: ts })
                        } else {
                            None
                        },
                    },
                },
            },
        },
    }
}

/// Every record in the sequence has representable timestamps.
pub open spec fn wf_notes(ns: Seq<NoteV>) -> bool {
    forall|k: int| 0 <= k < ns.len() ==> (#[trigger] ns[k]).wf()
}

/// Every record in the sequence has representable timestamps.
pub open spec fn wf_todos(ts: Seq<TodoV>) -> bool {
    forall|k: int| 0 <= k < ts.len() ==> (#[trigger] ts[k]).wf()
}

// ---------------------------------------------------------------------------
// The executable serializer
// ---------------------------------------------------------------------------
/// Appends the escaped form of `s`.
fn write_escaped(out: &mut String, s: &str)
    ensures
        final(out)@ == old(out)@ + esc(s@),
{
    let n = s.unicode_len();
    let mut k: usize = 0;
    proof {
        assert(esc(s@.take(0)) == Seq::<char>::empty());
        assert(out@ + esc(s@.take(0)) =~= out@);
    }
    #[verifier::loop_isolation(false)]
    while k < n
        invariant
            k <= n,
            out@ == old(out)@ + esc(s@.take(k as int)),
        decreases n - k,
    {
        let ghost prev = out@;
        let c = s.get_char(k);
        if c == '"' {
            out.append("\\\"");
            proof {
                reveal_strlit("\\\"");
                assert("\\\""@ =~= esc_char(c));
            }
        } else if c == '\\' {
            out.append("\\\\");
            proof {
                reveal_strlit("\\\\");
                assert("\\\\"@ =~= esc_char(c));
            }
        } else if c == '\n' {
            out.append("\\n");
            proof {
                reveal_strlit("\\n");
                assert("\\n"@ =~= esc_char(c));
            }
        } else if c == '\t' {
            out.append("\\t");
            proof {
                reveal_strlit("\\t");
                assert("\\t"@ =~= esc_char(c));
            }
        } else if c == '\r' {
            out.append("\\r");
            proof {
                reveal_strlit("\\r");
                assert("\\r"@ =~= esc_char(c));
            }
        } else {
            push_char(out, c);
            proof {
                assert(out@ =~= prev + esc_char(c));
            }
        }
        proof {
            lemma_esc_snoc(s@.take(k as int), c);
            assert(s@.take(k as int).push(c) =~= s@.take(k as int + 1));
            assert(out@ == prev + esc_char(c));
            assert(out@ =~= old(out)@ + esc(s@.take(k as int + 1)));
        }
        k = k + 1;
    }
    proof {
        assert(s@.take(n as int) =~= s@);
    }
}

/// Appends `s` as a JSON string literal.
fn write_jstr(out: &mut String, s: &str)
    ensures
        final(out)@ == old(out)@ + jstr(s@),
{
    push_char(out, '"');
    write_escaped(out, s);
    push_char(out, '"');
    proof {
        assert(final(out)@ =~= old(out)@ + jstr(s@));
    }
}

/// Appends one serialized note object.
#[verifier::rlimit(60)]
fn write_note(out: &mut String, n: &Note)
    requires
        n@.wf(),
    ensures
        final(out)@ == old(out)@ + ser_note(n@),
{
    out.append("{\"id\":");
    let ids = uuid_to_string(n.id);
    write_jstr(out, ids.as_str());
    out.append(",\"title\":");
    write_jstr(out, n.title.as_str());
    out.append(",\"content\":");
    write_jstr(out, n.content.as_str());
    out.append(",\"created_at\":");
    let cs = ts_to_rfc3339(n.created_at);
    write_jstr(out, cs.as_str());
    out.append(",\"updated_at\":");
    let us = ts_to_rfc3339(n.updated_at);
    write_jstr(out, us.as_str());
    out.append("}");
    proof {
        assert(final(out)@ =~= old(out)@ + ser_note(n@));
    }
}

/// Appends one serialized checklist item object.
fn write_todo(out: &mut String, t: &TodoItem)
    requires
        t@.wf(),
    ensures
        final(out)@ == old(out)@ + ser_todo(t@),
{
    out.append("{\"id\":");
    let ids = uuid_to_string(t.id);
    write_jstr(out, ids.as_str());
    out.append(",\"text\":");
    write_jstr(out, t.text.as_str());
    out.append(",\"completed\":");
    if t.completed {
        out.append("true");
    } else {
        out.append("false");
    }
    out.append(",\"completed_at\":");
    match &t.completed_at {
        None => {
            out.append("null");
        },
        Some(ca) => {
            let cas = ts_to_rfc3339(*ca);
            write_jstr(out, cas.as_str());
        },
    }
    out.append(",\"created_at\":");
    let cs = ts_to_rfc3339(t.created_at);
    write_jstr(out, cs.as_str());
    out.append("}");
    proof {
        assert(final(out)@ =~= old(out)@ + ser_todo(t@));
    }
}

impl AppData {
    /// The whole store as one JSON text: exactly the serialized form that
    /// loading inverts.
    #[verifier::rlimit(100)]
    #[verifier::spinoff_prover]
    pub fn to_json(&self) -> (r: String)
        requires
            self@.ts_ok(),
        ensures
            r@ == ser_store(self@),
    {
        let mut out = String::new();
        out.append("{\"notes\":[");
        let ghost hdr = out@;
        let n = self.notes.len();
        let mut k: usize = 0;
        proof {
            assert(ser_notes(self@.notes.take(0)) == Seq::<char>::empty());
            assert(out@ + ser_notes(self@.notes.take(0)) =~= out@);
        }
        #[verifier::loop_isolation(false)]
        while k < n
            invariant
                k <= n,
                out@ == hdr + ser_notes(self@.notes.take(k as int)),
            decreases n - k,
        {
            if k > 0 {
                out.append(",");
            }
            proof {
                assert(self@.notes[k as int].wf());
                assert(self@.notes[k as int] == self.notes[k as int]@);
            }
            write_note(&mut out, &self.notes[k]);
            proof {
                let t1 = self@.notes.take(k as int + 1);
                assert(t1.drop_last() =~= self@.notes.take(k as int));
                assert(t1.last() == self@.notes[k as int]);
                reveal_strlit(",");
                if k == 0 {
                    assert(ser_notes(t1) == ser_note(self@.notes[0]));
                    assert(out@ =~= hdr + ser_notes(t1));
                } else {
                    assert(ser_notes(t1) == ser_notes(self@.notes.take(k as int)) + ","@
                        + ser_note(self@.notes[k as int]));
                    assert(out@ =~= hdr + ser_notes(t1));
                }
            }
            k = k + 1;
        }
        proof {
            assert(self@.notes.take(n as int) =~= self@.notes);
        }
        out.append("]");
        out.append(",\"todos\":[");
        let ghost hdr2 = out@;
        let m = self.todos.len();
        let mut j: usize = 0;
        proof {
            assert(ser_todos(self@.todos.take(0)) == Seq::<char>::empty());
            assert(out@ + ser_todos(self@.todos.take(0)) =~= out@);
        }
        #[verifier::loop_isolation(false)]
        while j < m
            invariant
                j <= m,
                out@ == hdr2 + ser_todos(self@.todos.take(j as int)),
            decreases m - j,
        {
            if j > 0 {
                out.append(",");
            }
            proof {
                assert(self@.todos[j as int].wf());
                assert(self@.todos[j as int] == self.todos[j as int]@);
            }
            write_todo(&mut out, &self.todos[j]);
            proof {
                let t1 = self@.todos.take(j as int + 1);
                assert(t1.drop_last() =~= self@.todos.take(j as int));
                assert(t1.last() == self@.todos[j as int]);
                reveal_strlit(",");
                if j == 0 {
                    assert(ser_todos(t1) == ser_todo(self@.todos[0]));
                    assert(out@ =~= hdr2 + ser_todos(t1));
                } else {
                    assert(ser_todos(t1) == ser_todos(self@.todos.take(j as int)) + ","@
                        + ser_todo(self@.todos[j as int]));
                    assert(out@ =~= hdr2 + ser_todos(t1));
                }
            }
            j = j + 1;
        }
        proof {
            assert(self@.todos.take(m as int) =~= self@.todos);
        }
        out.append("]");
        out.append("}");
        proof {
            assert(out@ =~= ser_store(self@));
        }
        out
    }
}

// ---------------------------------------------------------------------------
// The executable parser
// ---------------------------------------------------------------------------
/// Consumes the exact text `lit` at position `i`, yielding the position after
/// it; `None` exactly where the text does not stand there.
fn expect_lit(s: &str, i: usize, lit: &str) -> (r: Option<usize>)
    requires
        i <= s@.len(),
    ensures
        match r {
            Some(j) => {
                &&& j == i + lit@.len()
                &&& i <= j <= s@.len()
                &&& p_lit(s@.skip(i as int), lit@) == Some(s@.skip(j as int))
            },
            None => p_lit(s@.skip(i as int), lit@) is None,
        },
{
    let sl = s.unicode_len();
    let ll = lit.unicode_len();
    if ll > sl - i {
        proof {
            assert(s@.skip(i as int).len() < lit@.len());
        }
        return None;
    }
    let mut k: usize = 0;
    #[verifier::loop_isolation(false)]
    while k < ll
        invariant
            k <= ll,
            forall|m: int| 0 <= m < k ==> s@[i + m] == lit@[m],
        decreases ll - k,
    {
        if s.get_char(i + k) != lit.get_char(k) {
            proof {
                let sk = s@.skip(i as int);
                assert(sk.take(lit@.len() as int)[k as int] == s@[i + k]);
                assert(p_lit(sk, lit@) is None) by {
                    if p_lit(sk, lit@) is Some {
                        assert(sk.take(lit@.len() as int) == lit@);
                        assert(sk.take(lit@.len() as int)[k as int] == lit@[k as int]);
                    }
                }
            }
            return None;
        }
        k = k + 1;
    }
    proof {
        let sk = s@.skip(i as int);
        assert(sk.take(ll as int) =~= lit@);
        assert(sk.skip(ll as int) =~= s@.skip(i + ll));
    }
    Some(i + ll)
}

/// Glues an already-read prefix onto the outcome of reading the remainder of
/// a string body.
pub open spec fn unesc_ext(prefix: Seq<char>, o: Option<(Seq<char>, Seq<char>)>) -> Option<
    (Seq<char>, Seq<char>),
> {
    match o {
        None => None,
        Some(p) => Some((prefix + p.0, p.1)),
    }
}

proof fn lemma_unesc_ext_empty(o: Option<(Seq<char>, Seq<char>)>)
    ensures
        unesc_ext(Seq::empty(), o) == o,
{
    match o {
        None => {},
        Some(p) => {
            assert(Seq::empty() + p.0 =~= p.0);
        },
    }
}

proof fn lemma_unesc_ext_step(acc: Seq<char>, c: char, o: Option<(Seq<char>, Seq<char>)>)
    ensures
        unesc_ext(acc.push(c), o) == unesc_ext(acc, unesc_ext(seq![c], o)),
{
    match o {
        None => {},
        Some(p) => {
            assert(acc.push(c) + p.0 =~= acc + (seq![c] + p.0));
        },
    }
}

/// The character a short escape names, as executable code.
fn unesc_short_exec(e: char) -> (r: Option<char>)
    ensures
        r == unesc_short(e),
{
    if e == '"' {
        Some('"')
    } else if e == '\\' {
        Some('\\')
    } else if e == 'n' {
        Some('\n')
    } else if e == 't' {
        Some('\t')
    } else if e == 'r' {
        Some('\r')
    } else {
        None
    }
}

/// Reads a JSON string literal at position `i`, undoing the escapes; follows
/// the spec-level reader exactly.
fn parse_jstr(s: &str, i: usize) -> (r: Option<(String, usize)>)
    requires
        i <= s@.len(),
    ensures
        match r {
            Some(p) => {
                &&& i < p.1 <= s@.len()
                &&& p_jstr(s@.skip(i as int)) == Some((p.0@, s@.skip(p.1 as int)))
            },
            None => p_jstr(s@.skip(i as int)) is None,
        },
{
    let sl = s.unicode_len();
    if i == sl {
        return None;
    }
    if s.get_char(i) != '"' {
        proof {
            assert(s@.skip(i as int)[0] == s@[i as int]);
        }
        return None;
    }
    let mut acc = String::new();
    let mut p: usize = i + 1;
    proof {
        assert(s@.skip(i as int)[0] == '"');
        assert(s@.skip(i as int).drop_first() =~= s@.skip(i as int + 1));
        lemma_unesc_ext_empty(p_unesc(s@.skip(i as int + 1)));
    }
    #[verifier::loop_isolation(false)]
    while p < sl
        invariant
            i + 1 <= p <= sl,
            unesc_ext(acc@, p_unesc(s@.skip(p as int))) == p_unesc(s@.skip(i as int + 1)),
        decreases sl - p,
    {
        let c = s.get_char(p);
        proof {
            assert(s@.skip(p as int)[0] == c);
            assert(s@.skip(p as int).drop_first() =~= s@.skip(p as int + 1));
        }
        if c == '"' {
            proof {
                assert(p_unesc(s@.skip(p as int)) == Some(
                    (Seq::<char>::empty(), s@.skip(p as int + 1)),
                ));
                assert(acc@ + Seq::<char>::empty() =~= acc@);
                assert(p_jstr(s@.skip(i as int)) == Some((acc@, s@.skip(p as int + 1))));
            }
            return Some((acc, p + 1));
        } else if c == '\\' {
            if p + 1 == sl {
                proof {
                    assert(s@.skip(p as int).len() < 2);
                    assert(p_unesc(s@.skip(p as int)) is None);
                }
                return None;
            }
            let e = s.get_char(p + 1);
            proof {
                assert(s@.skip(p as int)[1] == e);
                assert(s@.skip(p as int).skip(2) =~= s@.skip(p as int + 2));
            }
            match unesc_short_exec(e) {
                None => {
                    proof {
                        assert(p_unesc(s@.skip(p as int)) is None);
                    }
                    return None;
                },
                Some(dec) => {
                    proof {
                        assert(p_unesc(s@.skip(p as int)) == unesc_ext(
                            seq![dec],
                            p_unesc(s@.skip(p as int + 2)),
                        ));
                    }
                    let ghost acc0 = acc@;
                    push_char(&mut acc, dec);
                    proof {
                        lemma_unesc_ext_step(acc0, dec, p_unesc(s@.skip(p as int + 2)));
                    }
                    p = p + 2;
                },
            }
        } else {
            proof {
                assert(p_unesc(s@.skip(p as int)) == unesc_ext(
                    seq![c],
                    p_unesc(s@.skip(p as int + 1)),
                ));
            }
            let ghost acc0 = acc@;
            push_char(&mut acc, c);
            proof {
                lemma_unesc_ext_step(acc0, c, p_unesc(s@.skip(p as int + 1)));
            }
            p = p + 1;
        }
    }
    proof {
        assert(s@.skip(p as int).len() == 0);
        assert(p_unesc(s@.skip(p as int)) is None);
    }
    None
}

/// Reads a JSON boolean at position `i`.
fn parse_bool(s: &str, i: usize) -> (r: Option<(bool, usize)>)
    requires
        i <= s@.len(),
    ensures
        match r {
            Some(p) => {
                &&& i <= p.1 <= s@.len()
                &&& p_bool(s@.skip(i as int)) == Some((p.0, s@.skip(p.1 as int)))
            },
            None => p_bool(s@.skip(i as int)) is None,
        },
{
    match expect_lit(s, i, "true") {
        Some(j) => Some((true, j)),
        None => match expect_lit(s, i, "false") {
            Some(j) => Some((false, j)),
            None => None,
        },
    }
}

/// The model of an optional owned string.
pub open spec fn ostr_view(o: Option<String>) -> Option<Seq<char>> {
    match o {
        None => None,
        Some(x) => Some(x@),
    }
}

/// Reads `null` or a JSON string literal at position `i`.
fn parse_null_or_jstr(s: &str, i: usize) -> (r: Option<(Option<String>, usize)>)
    requires
        i <= s@.len(),
    ensures
        match r {
            Some(p) => {
                &&& i <= p.1 <= s@.len()
                &&& p_null_or_jstr(s@.skip(i as int)) == Some((ostr_view(p.0), s@.skip(p.1 as int)))
            },
            None => p_null_or_jstr(s@.skip(i as int)) is None,
        },
{
    match expect_lit(s, i, "null") {
        Some(j) => Some((None, j)),
        None => match parse_jstr(s, i) {
            Some((x, j)) => Some((Some(x), j)),
            None => None,
        },
    }
}

/// Reads one note object, fields still text; follows the spec-level reader
/// exactly.
fn parse_note_raw(s: &str, i: usize) -> (r: Option<(String, String, String, String, String, usize)>)
    requires
        i <= s@.len(),
    ensures
        match r {
            Some(p) => {
                &&& i < p.5 <= s@.len()
                &&& p_note_raw(s@.skip(i as int)) == Some(
                    (
                        RawNote {
                            id: p.0@,
                            title: p.1@,
                            content: p.2@,
                            created_at: p.3@,
                            updated_at: p.4@,
                        },
                        s@.skip(p.5 as int),
                    ),
                )
            },
            None => p_note_raw(s@.skip(i as int)) is None,
        },
{
    let j1 = match expect_lit(s, i, "{\"id\":") {
        None => {
            return None;
        },
        Some(j) => j,
    };
    let (ids, j2) = match parse_jstr(s, j1) {
        None => {
            return None;
        },
        Some(p) => p,
    };
    let j3 = match expect_lit(s, j2, ",\"title\":") {
        None => {
            return None;
        },
        Some(j) => j,
    };
    let (title, j4) = match parse_jstr(s, j3) {
        None => {
            return None;
        },
        Some(p) => p,
    };
    let j5 = match expect_lit(s, j4, ",\"content\":") {
        None => {
            return None;
        },
        Some(j) => j,
    };
    let (content, j6) = match parse_jstr(s, j5) {
        None => {
            return None;
        },
        Some(p) => p,
    };
    let j7 = match expect_lit(s, j6, ",\"created_at\":") {
        None => {
            return None;
        },
        Some(j) => j,
    };
    let (cas, j8) = match parse_jstr(s, j7) {
        None => {
            return None;
        },
        Some(p) => p,
    };
    let j9 = match expect_lit(s, j8, ",\"updated_at\":") {
        None => {
            return None;
        },
        Some(j) => j,
    };
    let (uas, j10) = match parse_jstr(s, j9) {
        None => {
            return None;
        },
        Some(p) => p,
    };
    let j11 = match expect_lit(s, j10, "}") {
        None => {
            return None;
        },
        Some(j) => j,
    };
    Some((ids, title, content, cas, uas, j11))
}

/// Reads one checklist item object, fields still text; follows the
/// spec-level reader exactly.
fn parse_todo_raw(s: &str, i: usize) -> (r: Option<
    (String, String, bool, Option<String>, String, usize),
>)
    requires
        i <= s@.len(),
    ensures
        match r {
            Some(p) => {
                &&& i < p.5 <= s@.len()
                &&& p_todo_raw(s@.skip(i as int)) == Some(
                    (
                        RawTodo {
                            id: p.0@,
                            text: p.1@,
                            completed: p.2,
                            completed_at: ostr_view(p.3),
                            created_at: p.4@,
                        },
                        s@.skip(p.5 as int),
                    ),
                )
            },
            None => p_todo_raw(s@.skip(i as int)) is None,
        },
{
    let j1 = match expect_lit(s, i, "{\"id\":") {
        None => {
            return None;
        },
        Some(j) => j,
    };
    let (ids, j2) = match parse_jstr(s, j1) {
        None => {
            return None;
        },
        Some(p) => p,
    };
    let j3 = match expect_lit(s, j2, ",\"text\":") {
        None => {
            return None;
        },
        Some(j) => j,
    };
    let (text, j4) = match parse_jstr(s, j3) {
        None => {
            return None;
        },
        Some(p) => p,
    };
    let j5 = match expect_lit(s, j4, ",\"completed\":") {
        None => {
            return None;
        },
        Some(j) => j,
    };
    let (comp, j6) = match parse_bool(s, j5) {
        None => {
            return None;
        },
        Some(p) => p,
    };
    let j7 = match expect_lit(s, j6, ",\"completed_at\":") {
        None => {
            return None;
        },
        Some(j) => j,
    };
    let (cat, j8) = match parse_null_or_jstr(s, j7) {
        None => {
            return None;
        },
        Some(p) => p,
    };
    let j9 = match expect_lit(s, j8, ",\"created_at\":") {
        None => {
            return None;
        },
        Some(j) => j,
    };
    let (crs, j10) = match parse_jstr(s, j9) {
        None => {
            return None;
        },
        Some(p) => p,
    };
    let j11 = match expect_lit(s, j10, "}") {
        None => {
            return None;
        },
        Some(j) => j,
    };
    Some((ids, text, comp, cat, crs, j11))
}

/// Reads and decodes one note; follows the spec-level reader exactly, and
/// succeeds on the serialized form of every well-formed note.
fn parse_note(s: &str, i: usize) -> (r: Option<(Note, usize)>)
    requires
        i <= s@.len(),
    ensures
        match r {
            Some(p) => {
                &&& i < p.1 <= s@.len()
                &&& p_note(s@.skip(i as int)) == Some((p.0@, s@.skip(p.1 as int)))
            },
            None => p_note(s@.skip(i as int)) is None,
        },
        forall|n: NoteV, rest: Seq<char>|
            n.wf() && s@.skip(i as int) == #[trigger] (ser_note(n) + rest) ==> p_note(
                s@.skip(i as int),
            ) == Some((n, rest)),
{
    let parts = match parse_note_raw(s, i) {
        None => {
            proof {
                assert forall|n: NoteV, rest: Seq<char>|
                    n.wf() && s@.skip(i as int) == #[trigger] (ser_note(n) + rest) implies p_note(
                    s@.skip(i as int),
                ) == Some((n, rest)) by {
                    lemma_p_note_raw_complete(raw_of_note(n), rest);
                }
            }
            return None;
        },
        Some(p) => p,
    };
    let (ids, title, content, cas, uas, j) = parts;
    let ghost raw = RawNote {
        id: ids@,
        title: title@,
        content: content@,
        created_at: cas@,
        updated_at: uas@,
    };
    let oid = parse_uuid(ids.as_str());
    let oca = parse_rfc3339_ts(cas.as_str());
    let oua = parse_rfc3339_ts(uas.as_str());
    proof {
        assert forall|n: NoteV, rest: Seq<char>|
            n.wf() && s@.skip(i as int) == #[trigger] (ser_note(n) + rest) implies conv_note(raw)
            == Some(n) && raw == raw_of_note(n) && s@.skip(j as int) == rest by {
            lemma_p_note_raw_complete(raw_of_note(n), rest);
        }
    }
    let id = match oid {
        None => {
            return None;
        },
        Some(x) => x,
    };
    let ca = match oca {
        None => {
            return None;
        },
        Some(x) => x,
    };
    let ua = match oua {
        None => {
            return None;
        },
        Some(x) => x,
    };
    if ca < 0 || ca > MAX_TS_MILLIS || ua < 0 || ua > MAX_TS_MILLIS {
        return None;
    }
    let note = Note { id: id, title: title, content: content, created_at: ca, updated_at: ua };
    proof {
        assert(conv_note(raw) == Some(note@));
    }
    Some((note, j))
}

/// Reads and decodes one checklist item; follows the spec-level reader
/// exactly, and succeeds on the serialized form of every well-formed item.
fn parse_todo(s: &str, i: usize) -> (r: Option<(TodoItem, usize)>)
    requires
        i <= s@.len(),
    ensures
        match r {
            Some(p) => {
                &&& i < p.1 <= s@.len()
                &&& p_todo(s@.skip(i as int)) == Some((p.0@, s@.skip(p.1 as int)))
            },
            None => p_todo(s@.skip(i as int)) is None,
        },
        forall|t: TodoV, rest: Seq<char>|
            t.wf() && s@.skip(i as int) == #[trigger] (ser_todo(t) + rest) ==> p_todo(
                s@.skip(i as int),
            ) == Some((t, rest)),
{
    let parts = match parse_todo_raw(s, i) {
        None => {
            proof {
                assert forall|t: TodoV, rest: Seq<char>|
                    t.wf() && s@.skip(i as int) == #[trigger] (ser_todo(t) + rest) implies p_todo(
                    s@.skip(i as int),
                ) == Some((t, rest)) by {
                    lemma_p_todo_raw_complete(raw_of_todo(t), rest);
                }
            }
            return None;
        },
        Some(p) => p,
    };
    let (ids, text, comp, cat, crs, j) = parts;
    let ghost raw = RawTodo {
        id: ids@,
        text: text@,
        completed: comp,
        completed_at: ostr_view(cat),
        created_at: crs@,
    };
    let oid = parse_uuid(ids.as_str());
    let ocr = parse_rfc3339_ts(crs.as_str());
    let oca: Option<i64> = match &cat {
        None => None,
        Some(castr) => parse_rfc3339_ts(castr.as_str()),
    };
    proof {
        assert forall|t: TodoV, rest: Seq<char>|
            t.wf() && s@.skip(i as int) == #[trigger] (ser_todo(t) + rest) implies conv_todo(raw)
            == Some(t) && raw == raw_of_todo(t) && s@.skip(j as int) == rest by {
            lemma_p_todo_raw_complete(raw_of_todo(t), rest);
        }
    }
    let id = match oid {
        None => {
            return None;
        },
        Some(x) => x,
    };
    let cr = match ocr {
        None => {
            return None;
        },
        Some(x) => x,
    };
    if cr < 0 || cr > MAX_TS_MILLIS {
        return None;
    }
    let completed_at: Option<i64> = match &cat {
        None => None,
        Some(_) => match oca {
            None => {
                return None;
            },
            Some(x) => {
                if x < 0 || x > MAX_TS_MILLIS {
                    return None;
                }
                Some(x)
            },
        },
    };
    let todo = TodoItem {
        id: id,
        text: text,
        completed: comp,
        created_at: cr,
        completed_at: completed_at,
    };
    proof {
        assert(conv_todo(raw) == Some(todo@));
    }
    Some((todo, j))
}

/// How a serialized notes array body followed by its bracket decomposes
/// around its first object.
proof fn lemma_notes_hyp_shape(sk: Seq<char>, ns: Seq<NoteV>, rest: Seq<char>)
    requires
        sk == ser_notes(ns) + "]"@ + rest,
    ensures
        ns.len() == 0 ==> sk.len() > 0 && sk[0] == ']' && sk.drop_first() == rest,
        ns.len() == 1 ==> sk == ser_note(ns[0]) + ("]"@ + rest),
        ns.len() > 1 ==> sk == ser_note(ns[0]) + (","@ + (ser_notes(ns.drop_first()) + "]"@
            + rest)),
        ns.len() > 0 ==> sk.len() > 0 && sk[0] == '{' && ser_note(ns[0]).len() > 0,
        "]"@.len() == 1 && "]"@[0] == ']',
        ","@.len() == 1 && ","@[0] == ',',
        wf_notes(ns) && ns.len() > 0 ==> ns[0].wf() && wf_notes(ns.drop_first()),
{
    reveal_strlit("]");
    reveal_strlit(",");
    reveal_strlit("{\"id\":");
    if ns.len() == 0 {
        assert(ser_notes(ns) == Seq::<char>::empty());
        assert(sk =~= "]"@ + rest);
        assert(sk.drop_first() =~= rest);
    } else {
        lemma_ser_notes_head(ns);
        if ns.len() == 1 {
            assert(sk =~= ser_note(ns[0]) + ("]"@ + rest));
        } else {
            assert(sk =~= ser_note(ns[0]) + (","@ + (ser_notes(ns.drop_first()) + "]"@ + rest)));
        }
        assert(ser_note(ns[0])[0] == '{');
        assert(ser_note(ns[0]).len() > 0);
        assert(sk[0] == '{');
        if wf_notes(ns) {
            assert(ns[0].wf());
            assert forall|k: int| 0 <= k < ns.drop_first().len() implies (#[trigger] ns.drop_first()[k]).wf() by {
                assert(ns.drop_first()[k] == ns[k + 1]);
            }
        }
    }
}

/// The completeness of the array reader at `sk`: every serialized array of
/// well-formed notes standing there is read back as written.
pub open spec fn notes_complete_at(sk: Seq<char>) -> bool {
    forall|ns: Seq<NoteV>, rest: Seq<char>|
        wf_notes(ns) && sk == #[trigger] (ser_notes(ns) + "]"@ + rest) ==> p_notes(sk) == Some(
            (ns, rest),
        )
}

/// The completeness of the note reader at `sk`.
pub open spec fn note_complete_at(sk: Seq<char>) -> bool {
    forall|n: NoteV, rest: Seq<char>|
        n.wf() && sk == #[trigger] (ser_note(n) + rest) ==> p_note(sk) == Some((n, rest))
}

proof fn lemma_notes_complete_empty_case(sk: Seq<char>)
    requires
        sk.len() > 0,
        sk[0] == ']',
    ensures
        notes_complete_at(sk),
{
    assert forall|ns: Seq<NoteV>, rest: Seq<char>|
        wf_notes(ns) && sk == #[trigger] (ser_notes(ns) + "]"@ + rest) implies p_notes(sk) == Some(
        (ns, rest),
    ) by {
        lemma_notes_hyp_shape(sk, ns, rest);
    }
}

proof fn lemma_notes_complete_fail_case(sk: Seq<char>)
    requires
        sk.len() > 0,
        sk[0] != ']',
        note_complete_at(sk),
        p_note(sk) is None,
    ensures
        notes_complete_at(sk),
{
    assert forall|ns: Seq<NoteV>, rest: Seq<char>|
        wf_notes(ns) && sk == #[trigger] (ser_notes(ns) + "]"@ + rest) implies p_notes(sk) == Some(
        (ns, rest),
    ) by {
        lemma_notes_hyp_shape(sk, ns, rest);
    }
}

proof fn lemma_notes_complete_stuck_case(sk: Seq<char>, nv: NoteV, sk2: Seq<char>)
    requires
        sk.len() > 0,
        sk[0] != ']',
        note_complete_at(sk),
        p_note(sk) == Some((nv, sk2)),
        sk2.len() == 0 || (sk2[0] != ',' && sk2[0] != ']'),
    ensures
        notes_complete_at(sk),
{
    assert forall|ns: Seq<NoteV>, rest: Seq<char>|
        wf_notes(ns) && sk == #[trigger] (ser_notes(ns) + "]"@ + rest) implies p_notes(sk) == Some(
        (ns, rest),
    ) by {
        lemma_notes_hyp_shape(sk, ns, rest);
    }
}

proof fn lemma_notes_complete_comma_case(sk: Seq<char>, nv: NoteV, sk2: Seq<char>)
    requires
        sk.len() > 0,
        sk[0] != ']',
        note_complete_at(sk),
        p_note(sk) == Some((nv, sk2)),
        sk2.len() > 0,
        sk2[0] == ',',
        notes_complete_at(sk2.drop_first()),
    ensures
        notes_complete_at(sk),
{
    assert forall|ns: Seq<NoteV>, rest: Seq<char>|
        wf_notes(ns) && sk == #[trigger] (ser_notes(ns) + "]"@ + rest) implies p_notes(sk) == Some(
        (ns, rest),
    ) by {
        lemma_notes_hyp_shape(sk, ns, rest);
        if ns.len() > 1 {
            assert(sk2 == ","@ + (ser_notes(ns.drop_first()) + "]"@ + rest));
            assert(sk2.drop_first() =~= ser_notes(ns.drop_first()) + "]"@ + rest);
            assert(p_notes(sk2.drop_first()) == Some((ns.drop_first(), rest)));
            assert(sk2.len() < sk.len());
            assert(ns =~= seq![ns[0]] + ns.drop_first());
        }
    }
}

proof fn lemma_notes_complete_close_case(sk: Seq<char>, nv: NoteV, sk2: Seq<char>)
    requires
        sk.len() > 0,
        sk[0] != ']',
        note_complete_at(sk),
        p_note(sk) == Some((nv, sk2)),
        sk2.len() > 0,
        sk2[0] == ']',
    ensures
        notes_complete_at(sk),
{
    assert forall|ns: Seq<NoteV>, rest: Seq<char>|
        wf_notes(ns) && sk == #[trigger] (ser_notes(ns) + "]"@ + rest) implies p_notes(sk) == Some(
        (ns, rest),
    ) by {
        lemma_notes_hyp_shape(sk, ns, rest);
        if ns.len() == 1 {
            assert(sk2 == "]"@ + rest);
            assert(sk2.drop_first() =~= rest);
            assert(sk2.len() < sk.len());
            assert(ns =~= seq![ns[0]]);
        }
    }
}

/// Reads the notes array body at position `i`, up to and including the
/// closing bracket; follows the spec-level reader exactly, and succeeds on
/// every serialized array of well-formed notes.
fn parse_notes(s: &str, i: usize) -> (r: Option<(Vec<Note>, usize)>)
    requires
        i <= s@.len(),
    ensures
        match r {
            Some(p) => {
                &&& i < p.1 <= s@.len()
                &&& p_notes(s@.skip(i as int)) == Some((notes_view(p.0@), s@.skip(p.1 as int)))
            },
            None => p_notes(s@.skip(i as int)) is None,
        },
        notes_complete_at(s@.skip(i as int)),
    decreases s@.len() - i,
{
    let ghost sk = s@.skip(i as int);
    let sl = s.unicode_len();
    if i == sl {
        proof {
            assert forall|ns: Seq<NoteV>, rest: Seq<char>|
                wf_notes(ns) && sk == #[trigger] (ser_notes(ns) + "]"@ + rest) implies p_notes(sk)
                == Some((ns, rest)) by {
                lemma_notes_hyp_shape(sk, ns, rest);
            }
        }
        return None;
    }
    if s.get_char(i) == ']' {
        let v: Vec<Note> = Vec::new();
        proof {
            assert(sk[0] == ']');
            assert(sk.drop_first() =~= s@.skip(i as int + 1));
            assert(notes_view(v@) =~= Seq::<NoteV>::empty());
            lemma_notes_complete_empty_case(sk);
        }
        return Some((v, i + 1));
    }
    proof {
        assert(sk[0] != ']');
    }
    let (note, j) = match parse_note(s, i) {
        None => {
            proof {
                lemma_notes_complete_fail_case(sk);
            }
            return None;
        },
        Some(p) => p,
    };
    let ghost sk2 = s@.skip(j as int);
    if j == sl {
        proof {
            assert(sk2.len() == 0);
            lemma_notes_complete_stuck_case(sk, note@, sk2);
        }
        return None;
    }
    let c = s.get_char(j);
    proof {
        assert(sk2[0] == c);
        assert(sk2.drop_first() =~= s@.skip(j as int + 1));
    }
    if c == ',' {
        let (mut v, j2) = match parse_notes(s, j + 1) {
            None => {
                proof {
                    lemma_notes_complete_comma_case(sk, note@, sk2);
                }
                return None;
            },
            Some(p) => p,
        };
        let ghost v0 = v@;
        v.insert(0, note);
        proof {
            assert(notes_view(v@) =~= seq![note@] + notes_view(v0));
            lemma_notes_complete_comma_case(sk, note@, sk2);
        }
        Some((v, j2))
    } else if c == ']' {
        let mut v: Vec<Note> = Vec::new();
        v.push(note);
        proof {
            assert(notes_view(v@) =~= seq![note@]);
            lemma_notes_complete_close_case(sk, note@, sk2);
        }
        Some((v, j + 1))
    } else {
        proof {
            lemma_notes_complete_stuck_case(sk, note@, sk2);
        }
        None
    }
}

/// How a serialized todos array body followed by its bracket decomposes
/// around its first object.
proof fn lemma_todos_hyp_shape(sk: Seq<char>, ns: Seq<TodoV>, rest: Seq<char>)
    requires
        sk == ser_todos(ns) + "]"@ + rest,
    ensures
        ns.len() == 0 ==> sk.len() > 0 && sk[0] == ']' && sk.drop_first() == rest,
        ns.len() == 1 ==> sk == ser_todo(ns[0]) + ("]"@ + rest),
        ns.len() > 1 ==> sk == ser_todo(ns[0]) + (","@ + (ser_todos(ns.drop_first()) + "]"@
            + rest)),
        ns.len() > 0 ==> sk.len() > 0 && sk[0] == '{' && ser_todo(ns[0]).len() > 0,
        "]"@.len() == 1 && "]"@[0] == ']',
        ","@.len() == 1 && ","@[0] == ',',
        wf_todos(ns) && ns.len() > 0 ==> ns[0].wf() && wf_todos(ns.drop_first()),
{
    reveal_strlit("]");
    reveal_strlit(",");
    reveal_strlit("{\"id\":");
    if ns.len() == 0 {
        assert(ser_todos(ns) == Seq::<char>::empty());
        assert(sk =~= "]"@ + rest);
        assert(sk.drop_first() =~= rest);
    } else {
        lemma_ser_todos_head(ns);
        if ns.len() == 1 {
            assert(sk =~= ser_todo(ns[0]) + ("]"@ + rest));
        } else {
            assert(sk =~= ser_todo(ns[0]) + (","@ + (ser_todos(ns.drop_first()) + "]"@ + rest)));
        }
        assert(ser_todo(ns[0])[0] == '{');
        assert(ser_todo(ns[0]).len() > 0);
        assert(sk[0] == '{');
        if wf_todos(ns) {
            assert(ns[0].wf());
            assert forall|k: int| 0 <= k < ns.drop_first().len() implies (#[trigger] ns.drop_first()[k]).wf() by {
                assert(ns.drop_first()[k] == ns[k + 1]);
            }
        }
    }
}

/// The completeness of the array reader at `sk`: every serialized array of
/// well-formed todos standing there is read back as written.
pub open spec fn todos_complete_at(sk: Seq<char>) -> bool {
    forall|ns: Seq<TodoV>, rest: Seq<char>|
        wf_todos(ns) && sk == #[trigger] (ser_todos(ns) + "]"@ + rest) ==> p_todos(sk) == Some(
            (ns, rest),
        )
}

/// The completeness of the note reader at `sk`.
pub open spec fn todo_complete_at(sk: Seq<char>) -> bool {
    forall|n: TodoV, rest: Seq<char>|
        n.wf() && sk == #[trigger] (ser_todo(n) + rest) ==> p_todo(sk) == Some((n, rest))
}

proof fn lemma_todos_complete_empty_case(sk: Seq<char>)
    requires
        sk.len() > 0,
        sk[0] == ']',
    ensures
        todos_complete_at(sk),
{
    assert forall|ns: Seq<TodoV>, rest: Seq<char>|
        wf_todos(ns) && sk == #[trigger] (ser_todos(ns) + "]"@ + rest) implies p_todos(sk) == Some(
        (ns, rest),
    ) by {
        lemma_todos_hyp_shape(sk, ns, rest);
    }
}

proof fn lemma_todos_complete_fail_case(sk: Seq<char>)
    requires
        sk.len() > 0,
        sk[0] != ']',
        todo_complete_at(sk),
        p_todo(sk) is None,
    ensures
        todos_complete_at(sk),
{
    assert forall|ns: Seq<TodoV>, rest: Seq<char>|
        wf_todos(ns) && sk == #[trigger] (ser_todos(ns) + "]"@ + rest) implies p_todos(sk) == Some(
        (ns, rest),
    ) by {
        lemma_todos_hyp_shape(sk, ns, rest);
    }
}

proof fn lemma_todos_complete_stuck_case(sk: Seq<char>, nv: TodoV, sk2: Seq<char>)
    requires
        sk.len() > 0,
        sk[0] != ']',
        todo_complete_at(sk),
        p_todo(sk) == Some((nv, sk2)),
        sk2.len() == 0 || (sk2[0] != ',' && sk2[0] != ']'),
    ensures
        todos_complete_at(sk),
{
    assert forall|ns: Seq<TodoV>, rest: Seq<char>|
        wf_todos(ns) && sk == #[trigger] (ser_todos(ns) + "]"@ + rest) implies p_todos(sk) == Some(
        (ns, rest),
    ) by {
        lemma_todos_hyp_shape(sk, ns, rest);
    }
}

proof fn lemma_todos_complete_comma_case(sk: Seq<char>, nv: TodoV, sk2: Seq<char>)
    requires
        sk.len() > 0,
        sk[0] != ']',
        todo_complete_at(sk),
        p_todo(sk) == Some((nv, sk2)),
        sk2.len() > 0,
        sk2[0] == ',',
        todos_complete_at(sk2.drop_first()),
    ensures
        todos_complete_at(sk),
{
    assert forall|ns: Seq<TodoV>, rest: Seq<char>|
        wf_todos(ns) && sk == #[trigger] (ser_todos(ns) + "]"@ + rest) implies p_todos(sk) == Some(
        (ns, rest),
    ) by {
        lemma_todos_hyp_shape(sk, ns, rest);
        if ns.len() > 1 {
            assert(sk2 == ","@ + (ser_todos(ns.drop_first()) + "]"@ + rest));
            assert(sk2.drop_first() =~= ser_todos(ns.drop_first()) + "]"@ + rest);
            assert(p_todos(sk2.drop_first()) == Some((ns.drop_first(), rest)));
            assert(sk2.len() < sk.len());
            assert(ns =~= seq![ns[0]] + ns.drop_first());
        }
    }
}

proof fn lemma_todos_complete_close_case(sk: Seq<char>, nv: TodoV, sk2: Seq<char>)
    requires
        sk.len() > 0,
        sk[0] != ']',
        todo_complete_at(sk),
        p_todo(sk) == Some((nv, sk2)),
        sk2.len() > 0,
        sk2[0] == ']',
    ensures
        todos_complete_at(sk),
{
    assert forall|ns: Seq<TodoV>, rest: Seq<char>|
        wf_todos(ns) && sk == #[trigger] (ser_todos(ns) + "]"@ + rest) implies p_todos(sk) == Some(
        (ns, rest),
    ) by {
        lemma_todos_hyp_shape(sk, ns, rest);
        if ns.len() == 1 {
            assert(sk2 == "]"@ + rest);
            assert(sk2.drop_first() =~= rest);
            assert(sk2.len() < sk.len());
            assert(ns =~= seq![ns[0]]);
        }
    }
}

/// Reads the todos array body at position `i`, up to and including the
/// closing bracket; follows the spec-level reader exactly, and succeeds on
/// every serialized array of well-formed todos.
fn parse_todos(s: &str, i: usize) -> (r: Option<(Vec<TodoItem>, usize)>)
    requires
        i <= s@.len(),
    ensures
        match r {
            Some(p) => {
                &&& i < p.1 <= s@.len()
                &&& p_todos(s@.skip(i as int)) == Some((todos_view(p.0@), s@.skip(p.1 as int)))
            },
            None => p_todos(s@.skip(i as int)) is None,
        },
        todos_complete_at(s@.skip(i as int)),
    decreases s@.len() - i,
{
    let ghost sk = s@.skip(i as int);
    let sl = s.unicode_len();
    if i == sl {
        proof {
            assert forall|ns: Seq<TodoV>, rest: Seq<char>|
                wf_todos(ns) && sk == #[trigger] (ser_todos(ns) + "]"@ + rest) implies p_todos(sk)
                == Some((ns, rest)) by {
                lemma_todos_hyp_shape(sk, ns, rest);
            }
        }
        return None;
    }
    if s.get_char(i) == ']' {
        let v: Vec<TodoItem> = Vec::new();
        proof {
            assert(sk[0] == ']');
            assert(sk.drop_first() =~= s@.skip(i as int + 1));
            assert(todos_view(v@) =~= Seq::<TodoV>::empty());
            lemma_todos_complete_empty_case(sk);
        }
        return Some((v, i + 1));
    }
    proof {
        assert(sk[0] != ']');
    }
    let (todo, j) = match parse_todo(s, i) {
        None => {
            proof {
                lemma_todos_complete_fail_case(sk);
            }
            return None;
        },
        Some(p) => p,
    };
    let ghost sk2 = s@.skip(j as int);
    if j == sl {
        proof {
            assert(sk2.len() == 0);
            lemma_todos_complete_stuck_case(sk, todo@, sk2);
        }
        return None;
    }
    let c = s.get_char(j);
    proof {
        assert(sk2[0] == c);
        assert(sk2.drop_first() =~= s@.skip(j as int + 1));
    }
    if c == ',' {
        let (mut v, j2) = match parse_todos(s, j + 1) {
            None => {
                proof {
                    lemma_todos_complete_comma_case(sk, todo@, sk2);
                }
                return None;
            },
            Some(p) => p,
        };
        let ghost v0 = v@;
        v.insert(0, todo);
        proof {
            assert(todos_view(v@) =~= seq![todo@] + todos_view(v0));
            lemma_todos_complete_comma_case(sk, todo@, sk2);
        }
        Some((v, j2))
    } else if c == ']' {
        let mut v: Vec<TodoItem> = Vec::new();
        v.push(todo);
        proof {
            assert(todos_view(v@) =~= seq![todo@]);
            lemma_todos_complete_close_case(sk, todo@, sk2);
        }
        Some((v, j + 1))
    } else {
        proof {
            lemma_todos_complete_stuck_case(sk, todo@, sk2);
        }
        None
    }
}

/// What follows the notes array inside a serialized store.
pub open spec fn store_tail(d: StoreV) -> Seq<char> {
    ",\"todos\":["@ + (ser_todos(d.todos) + ("]"@ + "}"@))
}

/// How a serialized store decomposes into its pieces.
proof fn lemma_store_hyp_shape(t: Seq<char>, d: StoreV)
    requires
        t == ser_store(d),
        d.ts_ok(),
    ensures
        p_lit(t, "{\"notes\":["@) == Some(ser_notes(d.notes) + "]"@ + store_tail(d)),
        p_lit(store_tail(d), ",\"todos\":["@) == Some(ser_todos(d.todos) + "]"@ + "}"@),
        p_lit("}"@, "}"@) == Some(Seq::<char>::empty()),
        wf_notes(d.notes),
        wf_todos(d.todos),
{
    let x0 = ser_notes(d.notes) + "]"@ + store_tail(d);
    assert(t =~= "{\"notes\":["@ + x0);
    lemma_p_lit_complete("{\"notes\":["@, x0);
    let x1 = ser_todos(d.todos) + "]"@ + "}"@;
    assert(store_tail(d) =~= ",\"todos\":["@ + x1);
    lemma_p_lit_complete(",\"todos\":["@, x1);
    assert("}"@ =~= "}"@ + Seq::<char>::empty());
    lemma_p_lit_complete("}"@, Seq::<char>::empty());
}

impl AppData {
    /// Reads a whole store back from its JSON text: exactly the texts the
    /// spec-level reader accepts parse, and the serialized form of every
    /// store with representable timestamps parses to that store, field for
    /// field — a save followed by a load loses nothing.
    pub fn from_json(s: &str) -> (r: Option<AppData>)
        ensures
            match r {
                Some(a) => p_store(s@) == Some(a@),
                None => p_store(s@) is None,
            },
            forall|d: StoreV|
                d.ts_ok() && s@ == #[trigger] ser_store(d) ==> p_store(s@) == Some(d),
    {
        proof {
            assert(s@.skip(0) =~= s@);
        }
        let j1 = match expect_lit(s, 0, "{\"notes\":[") {
            None => {
                proof {
                    assert forall|d: StoreV| d.ts_ok() && s@ == #[trigger] ser_store(d)
                        implies p_store(s@) == Some(d) by {
                        lemma_store_hyp_shape(s@, d);
                    }
                }
                return None;
            },
            Some(j) => j,
        };
        let (nv, j2) = match parse_notes(s, j1) {
            None => {
                proof {
                    assert forall|d: StoreV| d.ts_ok() && s@ == #[trigger] ser_store(d)
                        implies p_store(s@) == Some(d) by {
                        lemma_store_hyp_shape(s@, d);
                    }
                }
                return None;
            },
            Some(p) => p,
        };
        let j3 = match expect_lit(s, j2, ",\"todos\":[") {
            None => {
                proof {
                    assert forall|d: StoreV| d.ts_ok() && s@ == #[trigger] ser_store(d)
                        implies p_store(s@) == Some(d) by {
                        lemma_store_hyp_shape(s@, d);
                    }
                }
                return None;
            },
            Some(j) => j,
        };
        let (tv, j4) = match parse_todos(s, j3) {
            None => {
                proof {
                    assert forall|d: StoreV| d.ts_ok() && s@ == #[trigger] ser_store(d)
                        implies p_store(s@) == Some(d) by {
                        lemma_store_hyp_shape(s@, d);
                    }
                }
                return None;
            },
            Some(p) => p,
        };
        let j5 = match expect_lit(s, j4, "}") {
            None => {
                proof {
                    assert forall|d: StoreV| d.ts_ok() && s@ == #[trigger] ser_store(d)
                        implies p_store(s@) == Some(d) by {
                        lemma_store_hyp_shape(s@, d);
                    }
                }
                return None;
            },
            Some(j) => j,
        };
        if j5 != s.unicode_len() {
            proof {
                assert(s@.skip(j5 as int).len() > 0);
                assert forall|d: StoreV| d.ts_ok() && s@ == #[trigger] ser_store(d)
                    implies p_store(s@) == Some(d) by {
                    lemma_store_hyp_shape(s@, d);
                }
            }
            return None;
        }
        let a = AppData { notes: nv, todos: tv };
        proof {
            assert(s@.skip(j5 as int).len() == 0);
            assert(a@.notes =~= notes_view(nv@));
            assert(a@.todos =~= todos_view(tv@));
            assert(p_store(s@) == Some(a@));
            assert forall|d: StoreV| d.ts_ok() && s@ == #[trigger] ser_store(d) implies p_store(
                s@,
            ) == Some(d) by {
                lemma_store_hyp_shape(s@, d);
            }
        }
        Some(a)
    }

    /// Reads a store from its JSON text, falling back to the empty store on
    /// any text the reader does not accept: a missing or corrupted file only
    /// ever means a fresh start, never a failure.
    pub fn load_from_json(s: &str) -> (r: AppData)
        ensures
            match p_store(s@) {
                Some(d) => r@ == d,
                None => r@ == StoreV::empty(),
            },
            forall|d: StoreV|
                d.ts_ok() && s@ == #[trigger] ser_store(d) ==> p_store(s@) == Some(d),
    {
        match AppData::from_json(s) {
            Some(a) => a,
            None => AppData::default(),
        }
    }

    /// A save followed by a load reproduces the store: serializing and
    /// reading back yields the same notes and the same items, in the same
    /// order, with the same field values.
    pub fn reload(&self) -> (r: AppData)
        requires
            self@.ts_ok(),
        ensures
            r@ == self@,
    {
        let text = self.to_json();
        AppData::load_from_json(text.as_str())
    }
}

} // verus!
