use vstd::prelude::*;
use vstd::string::StrSliceExecFns;
use crate::strutil::is_ws;
use crate::strutil::is_ws_char;
use crate::strutil::matches_at;
use crate::strutil::chars_to_string;
use crate::strutil::str_to_chars;

verus! {

// ---------------------------------------------------------------------------
// Document model: a tagged tree of quoted strings and nested blocks.  An
// object is an ordered list of key/value entries; duplicate keys are allowed
// and document order is preserved.
// ---------------------------------------------------------------------------

/// One value of the key-value format: a quoted string or a nested block.
pub enum Value {
    Str(String),
    Obj(Vec<Entry>),
}

/// One `key value` pair inside a block.
pub struct Entry {
    pub key: String,
    pub value: Value,
}

/// A whole document: one outer key bound to one value.
pub struct Doc {
    pub key: String,
    pub value: Value,
}

/// Mathematical model of a value.
#[verifier::ext_equal]
pub enum SpecValue {
    Str(Seq<char>),
    Obj(Seq<SpecEntry>),
}

/// Mathematical model of an entry.
#[verifier::ext_equal]
pub struct SpecEntry {
    pub key: Seq<char>,
    pub value: SpecValue,
}

impl Value {
    /// The model of this value.
    pub open spec fn view(&self) -> SpecValue
        decreases self,
    {
        match self {
            Value::Str(s) => SpecValue::Str(s@),
            Value::Obj(es) => SpecValue::Obj(Value::view_entries(es@)),
        }
    }

    /// The model of a list of entries.
    pub open spec fn view_entries(es: Seq<Entry>) -> Seq<SpecEntry>
        decreases es,
    {
        if es.len() == 0 {
            Seq::empty()
        } else {
            seq![SpecEntry { key: es[0].key@, value: es[0].value.view() }] + Value::view_entries(
                es.drop_first(),
            )
        }
    }
}

// ---------------------------------------------------------------------------
// Well-formedness: every key and string value is free of the quote character,
// so that it can be serialized and read back.
// ---------------------------------------------------------------------------

/// A string that can stand between quotes.
pub open spec fn wf_str(s: Seq<char>) -> bool {
    forall|i: int| 0 <= i < s.len() ==> s[i] != '"'
}

/// Every key and string in the value is quote-free.
pub open spec fn wf_val(v: SpecValue) -> bool
    decreases v,
{
    match v {
        SpecValue::Str(s) => wf_str(s),
        SpecValue::Obj(es) => wf_entries(es),
    }
}

/// Every key and string in the entry list is quote-free.
pub open spec fn wf_entries(es: Seq<SpecEntry>) -> bool
    decreases es,
{
    if es.len() == 0 {
        true
    } else {
        wf_str(es[0].key) && wf_val(es[0].value) && wf_entries(es.drop_first())
    }
}

// ---------------------------------------------------------------------------
// Serialization.
// ---------------------------------------------------------------------------

/// A string between quotes.
pub open spec fn quoted(s: Seq<char>) -> Seq<char> {
    seq!['"'] + s + seq!['"']
}

/// Text of a value.
pub open spec fn ser_val(v: SpecValue) -> Seq<char>
    decreases v,
{
    match v {
        SpecValue::Str(s) => quoted(s),
        SpecValue::Obj(es) => seq!['{', '\n'] + ser_entries(es) + seq!['}'],
    }
}

/// Text of an entry list.
pub open spec fn ser_entries(es: Seq<SpecEntry>) -> Seq<char>
    decreases es,
{
    if es.len() == 0 {
        Seq::empty()
    } else {
        ser_entry(es[0]) + ser_entries(es.drop_first())
    }
}

/// Text of one entry: `"key" value` on its own line.
pub open spec fn ser_entry(e: SpecEntry) -> Seq<char>
    decreases e,
{
    quoted(e.key) + seq![' '] + ser_val(e.value) + seq!['\n']
}

/// Text of a whole document.
pub open spec fn ser_doc(key: Seq<char>, v: SpecValue) -> Seq<char> {
    quoted(key) + seq![' '] + ser_val(v) + seq!['\n']
}

// ---------------------------------------------------------------------------
// Parsing.  Positions index into the character sequence; every function
// returns the position just past what it consumed.
// ---------------------------------------------------------------------------

/// First position at or after `i` that holds neither whitespace nor a
/// `//` line comment.
pub open spec fn skip_ws(s: Seq<char>, i: int) -> int
    decreases s.len() - i, 1int,
{
    if 0 <= i < s.len() {
        if is_ws(s[i]) {
            skip_ws(s, i + 1)
        } else if s[i] == '/' && i + 1 < s.len() && s[i + 1] == '/' {
            skip_comment(s, i + 2)
        } else {
            i
        }
    } else {
        i
    }
}

/// Position after the end of a line comment.
pub open spec fn skip_comment(s: Seq<char>, i: int) -> int
    decreases s.len() - i, 0int,
{
    if 0 <= i < s.len() {
        if s[i] == '\n' {
            skip_ws(s, i + 1)
        } else {
            skip_comment(s, i + 1)
        }
    } else {
        i
    }
}

/// First position at or after `i` holding a quote, or the length if none.
pub open spec fn find_quote(s: Seq<char>, i: int) -> int
    decreases s.len() - i,
{
    if 0 <= i < s.len() {
        if s[i] == '"' {
            i
        } else {
            find_quote(s, i + 1)
        }
    } else {
        s.len() as int
    }
}

/// Reads a quoted string starting exactly at `i`.
pub open spec fn parse_quoted(s: Seq<char>, i: int) -> Option<(Seq<char>, int)> {
    if 0 <= i < s.len() && s[i] == '"' {
        let j = find_quote(s, i + 1);
        if j < s.len() {
            Some((s.subrange(i + 1, j), j + 1))
        } else {
            None
        }
    } else {
        None
    }
}

/// Clamps a claimed next position into `(lo, len]`, so that positions
/// always advance; the clamp never fires on positions the parser really
/// produces.
pub open spec fn advance(j: int, lo: int, len: int) -> int {
    let a = if j > lo {
        j
    } else {
        lo + 1
    };
    if a < len {
        a
    } else {
        len
    }
}

/// Clamps a claimed position into `[lo, len]`; it never fires on positions
/// the parser really produces.
pub open spec fn clamp_pos(j: int, lo: int, len: int) -> int {
    let a = if j > lo {
        j
    } else {
        lo
    };
    if a < len {
        a
    } else {
        len
    }
}

/// Reads one value starting exactly at `i`: a quoted string or a block.
pub open spec fn parse_val(s: Seq<char>, i: int) -> Option<(SpecValue, int)>
    decreases s.len() - i, 1int,
{
    if 0 <= i < s.len() {
        if s[i] == '"' {
            match parse_quoted(s, i) {
                Some((t, j)) => Some((SpecValue::Str(t), j)),
                None => None,
            }
        } else if s[i] == '{' {
            match parse_entries(s, i + 1) {
                Some((es, j)) => Some((SpecValue::Obj(es), j)),
                None => None,
            }
        } else {
            None
        }
    } else {
        None
    }
}

/// Reads entries up to and including the closing `}` of a block.
pub open spec fn parse_entries(s: Seq<char>, i: int) -> Option<(Seq<SpecEntry>, int)>
    decreases s.len() - i, 0int,
{
    if 0 <= i < s.len() {
        let j0 = skip_ws(s, i);
        let j = if j0 > i {
            j0
        } else {
            i
        };
        if j >= s.len() {
            None
        } else if s[j] == '}' {
            Some((Seq::empty(), j + 1))
        } else {
            match parse_quoted(s, j) {
                None => None,
                Some((k, j2r)) => {
                    let j2 = advance(j2r, j, s.len() as int);
                    let j3 = clamp_pos(skip_ws(s, j2), j2, s.len() as int);
                    match parse_val(s, j3) {
                        None => None,
                        Some((v, j4r)) => {
                            let j4 = advance(j4r, j3, s.len() as int);
                            match parse_entries(s, j4) {
                                None => None,
                                Some((rest, j5)) => Some(
                                    (seq![SpecEntry { key: k, value: v }] + rest, j5),
                                ),
                            }
                        },
                    }
                },
            }
        }
    } else {
        None
    }
}

/// Reads a whole document: outer key, value, then only trailing layout.
pub open spec fn parse_doc(s: Seq<char>) -> Option<(Seq<char>, SpecValue)> {
    let i0 = skip_ws(s, 0);
    match parse_quoted(s, i0) {
        None => None,
        Some((key, j)) => {
            let j2 = skip_ws(s, j);
            match parse_val(s, j2) {
                None => None,
                Some((v, j3)) => {
                    if skip_ws(s, j3) == s.len() {
                        Some((key, v))
                    } else {
                        None
                    }
                },
            }
        },
    }
}

// ---------------------------------------------------------------------------
// Position bounds.
// ---------------------------------------------------------------------------

pub proof fn lemma_skip_ws_bounds(s: Seq<char>, i: int)
    requires
        0 <= i <= s.len(),
    ensures
        i <= skip_ws(s, i) <= s.len(),
    decreases s.len() - i, 1int,
{
    if i < s.len() {
        if is_ws(s[i]) {
            lemma_skip_ws_bounds(s, i + 1);
        } else if s[i] == '/' && i + 1 < s.len() && s[i + 1] == '/' {
            lemma_skip_comment_bounds(s, i + 2);
        }
    }
}

pub proof fn lemma_skip_comment_bounds(s: Seq<char>, i: int)
    requires
        0 <= i <= s.len(),
    ensures
        i <= skip_comment(s, i) <= s.len(),
    decreases s.len() - i, 0int,
{
    if i < s.len() {
        if s[i] == '\n' {
            lemma_skip_ws_bounds(s, i + 1);
        } else {
            lemma_skip_comment_bounds(s, i + 1);
        }
    }
}

pub proof fn lemma_find_quote_bounds(s: Seq<char>, i: int)
    requires
        0 <= i <= s.len(),
    ensures
        i <= find_quote(s, i) <= s.len(),
        forall|k: int| i <= k < find_quote(s, i) ==> s[k] != '"',
        find_quote(s, i) < s.len() ==> s[find_quote(s, i)] == '"',
    decreases s.len() - i,
{
    if i < s.len() && s[i] != '"' {
        lemma_find_quote_bounds(s, i + 1);
    }
}

pub proof fn lemma_parse_quoted_bounds(s: Seq<char>, i: int)
    requires
        0 <= i <= s.len(),
    ensures
        match parse_quoted(s, i) {
            Some((t, j)) => i + 2 <= j <= s.len() && t.len() == j - i - 2 && wf_str(t),
            None => true,
        },
{
    if 0 <= i < s.len() && s[i] == '"' {
        lemma_find_quote_bounds(s, i + 1);
        let j = find_quote(s, i + 1);
        if j < s.len() {
            assert forall|k: int| 0 <= k < s.subrange(i + 1, j).len() implies #[trigger] s.subrange(
                i + 1,
                j,
            )[k] != '"' by {
                assert(s.subrange(i + 1, j)[k] == s[i + 1 + k]);
            }
        }
    }
}

pub proof fn lemma_parse_val_bounds(s: Seq<char>, i: int)
    ensures
        match parse_val(s, i) {
            Some((v, p)) => i < p <= s.len(),
            None => true,
        },
    decreases s.len() - i, 1int,
{
    if 0 <= i < s.len() {
        if s[i] == '"' {
            lemma_parse_quoted_bounds(s, i);
        } else if s[i] == '{' {
            lemma_parse_entries_bounds(s, i + 1);
        }
    }
}

pub proof fn lemma_parse_entries_bounds(s: Seq<char>, i: int)
    ensures
        match parse_entries(s, i) {
            Some((es, p)) => i < p <= s.len(),
            None => true,
        },
    decreases s.len() - i, 0int,
{
    if 0 <= i < s.len() {
        let j0 = skip_ws(s, i);
        let j = if j0 > i {
            j0
        } else {
            i
        };
        if j < s.len() && s[j] != '}' {
            match parse_quoted(s, j) {
                None => {},
                Some((k, j2r)) => {
                    let j2 = advance(j2r, j, s.len() as int);
                    let j3 = clamp_pos(skip_ws(s, j2), j2, s.len() as int);
                    lemma_parse_val_bounds(s, j3);
                    match parse_val(s, j3) {
                        None => {},
                        Some((v, j4r)) => {
                            let j4 = advance(j4r, j3, s.len() as int);
                            lemma_parse_entries_bounds(s, j4);
                        },
                    }
                },
            }
        }
    }
}

} // verus!

verus! {

// ---------------------------------------------------------------------------
// The serializer's output parses back to the value it came from.
// ---------------------------------------------------------------------------

proof fn lemma_matches_index(s: Seq<char>, t: Seq<char>, i: int, k: int)
    requires
        matches_at(s, t, i),
        0 <= k < t.len(),
    ensures
        s[i + k] == t[k],
{
    assert(s.subrange(i, i + t.len() as int)[k] == s[i + k]);
}

proof fn lemma_matches_concat(s: Seq<char>, a: Seq<char>, b: Seq<char>, i: int)
    requires
        matches_at(s, a + b, i),
    ensures
        matches_at(s, a, i),
        matches_at(s, b, i + a.len()),
{
    assert forall|k: int| 0 <= k < (a + b).len() implies s[i + k] == (a + b)[k] by {
        lemma_matches_index(s, a + b, i, k);
    }
    assert(s.subrange(i, i + a.len() as int) =~= a);
    assert forall|k: int| 0 <= k < b.len() implies s[i + a.len() + k] == b[k] by {
        lemma_matches_index(s, a + b, i, a.len() + k);
        assert((a + b)[a.len() + k] == b[k]);
    }
    assert(s.subrange(i + a.len(), i + a.len() + b.len() as int) =~= b);
}

proof fn lemma_skip_ws_stop(s: Seq<char>, i: int)
    requires
        0 <= i < s.len(),
        !is_ws(s[i]),
        s[i] != '/',
    ensures
        skip_ws(s, i) == i,
{
}

proof fn lemma_find_quote_from(s: Seq<char>, a: int, e: int)
    requires
        0 <= a <= e < s.len(),
        forall|k: int| a <= k < e ==> s[k] != '"',
        s[e] == '"',
    ensures
        find_quote(s, a) == e,
    decreases e - a,
{
    if a < e {
        lemma_find_quote_from(s, a + 1, e);
    }
}

proof fn lemma_parse_quoted_exact(s: Seq<char>, i: int, t: Seq<char>)
    requires
        0 <= i,
        wf_str(t),
        matches_at(s, quoted(t), i),
    ensures
        parse_quoted(s, i) == Some((t, i + t.len() + 2)),
{
    let q = quoted(t);
    assert(q.len() == t.len() + 2);
    lemma_matches_index(s, q, i, 0);
    assert(s[i] == '"');
    assert forall|k: int| i + 1 <= k < i + 1 + t.len() implies s[k] != '"' by {
        lemma_matches_index(s, q, i, k - i);
        assert(q[k - i] == t[k - i - 1]);
    }
    lemma_matches_index(s, q, i, t.len() as int + 1);
    assert(s[i + 1 + t.len()] == '"');
    lemma_find_quote_from(s, i + 1, i + 1 + t.len());
    assert(s.subrange(i + 1, i + 1 + t.len()) =~= t) by {
        assert forall|k: int| 0 <= k < t.len() implies s[i + 1 + k] == t[k] by {
            lemma_matches_index(s, q, i, k + 1);
        }
    }
}

proof fn lemma_ser_val_shape(v: SpecValue)
    ensures
        ser_val(v).len() >= 2,
        ser_val(v)[0] == '"' || ser_val(v)[0] == '{',
        !is_ws(ser_val(v)[0]),
        ser_val(v)[0] != '/',
        ser_val(v)[0] != '}',
{
    match v {
        SpecValue::Str(t) => {
            assert(ser_val(v)[0] == quoted(t)[0]);
        },
        SpecValue::Obj(es) => {
        },
    }
}

proof fn lemma_entries_head_shape(es: Seq<SpecEntry>, c: char)
    requires
        c == (ser_entries(es) + seq!['}'])[0],
    ensures
        c == '"' || c == '}',
        !is_ws(c),
        c != '/',
{
    if es.len() == 0 {
        assert(c == '}');
    } else {
        assert(ser_entries(es) == ser_entry(es[0]) + ser_entries(es.drop_first()));
        assert(ser_entry(es[0])[0] == quoted(es[0].key)[0]);
        assert(c == '"');
    }
}

proof fn lemma_rt_val(s: Seq<char>, i: int, v: SpecValue)
    requires
        0 <= i,
        wf_val(v),
        matches_at(s, ser_val(v), i),
    ensures
        parse_val(s, i) == Some((v, i + ser_val(v).len())),
    decreases v,
{
    lemma_ser_val_shape(v);
    lemma_matches_index(s, ser_val(v), i, 0);
    match v {
        SpecValue::Str(t) => {
            assert(ser_val(v) == quoted(t));
            lemma_parse_quoted_exact(s, i, t);
        },
        SpecValue::Obj(es) => {
            let body = ser_entries(es) + seq!['}'];
            assert(ser_val(v) =~= seq!['{', '\n'] + body);
            lemma_matches_concat(s, seq!['{', '\n'], body, i);
            lemma_matches_index(s, seq!['{', '\n'], i, 1);
            assert(s[i + 1] == '\n');
            // The reader of the block starts just after `{`, skips the line
            // break, and lands on the entries.
            lemma_matches_index(s, body, i + 2, 0);
            lemma_entries_head_shape(es, s[i + 2]);
            lemma_skip_ws_stop(s, i + 2);
            assert(skip_ws(s, i + 1) == i + 2);
            lemma_rt_entries(s, i + 1, es);
            assert(parse_entries(s, i + 1) == Some((es, i + 2 + ser_entries(es).len() + 1)));
            assert(ser_val(v).len() == 2 + ser_entries(es).len() + 1);
        },
    }
}

proof fn lemma_rt_entries(s: Seq<char>, i: int, es: Seq<SpecEntry>)
    requires
        0 <= i <= s.len(),
        wf_entries(es),
        matches_at(s, ser_entries(es) + seq!['}'], skip_ws(s, i)),
    ensures
        parse_entries(s, i) == Some((es, skip_ws(s, i) + ser_entries(es).len() + 1)),
    decreases es,
{
    lemma_skip_ws_bounds(s, i);
    let j = skip_ws(s, i);
    assert(clamp_pos(j, i, s.len() as int) == j);
    if es.len() == 0 {
        lemma_matches_index(s, seq!['}'], j, 0);
        assert(s[j] == '}');
        assert(Seq::<SpecEntry>::empty() =~= es);
    } else {
        let e0 = es[0];
        let rest = es.drop_first();
        assert(ser_entries(es) == ser_entry(e0) + ser_entries(rest));
        let a1 = quoted(e0.key);
        let a3 = ser_val(e0.value);
        let tail = ser_entries(rest) + seq!['}'];
        assert(ser_entries(es) + seq!['}'] =~= a1 + (seq![' '] + (a3 + (seq!['\n'] + tail))));
        lemma_matches_concat(s, a1, seq![' '] + (a3 + (seq!['\n'] + tail)), j);
        lemma_matches_concat(s, seq![' '], a3 + (seq!['\n'] + tail), j + a1.len());
        lemma_matches_concat(s, a3, seq!['\n'] + tail, j + a1.len() + 1);
        lemma_matches_concat(s, seq!['\n'], tail, j + a1.len() + 1 + a3.len());
        lemma_matches_index(s, a1, j, 0);
        assert(s[j] == '"');
        lemma_parse_quoted_exact(s, j, e0.key);
        let j2 = j + a1.len() as int;
        assert(advance(j2, j, s.len() as int) == j2) by {
            lemma_matches_index(s, seq![' '], j2, 0);
        }
        lemma_matches_index(s, seq![' '], j2, 0);
        assert(s[j2] == ' ');
        let jv = j2 + 1;
        lemma_ser_val_shape(e0.value);
        lemma_matches_index(s, a3, jv, 0);
        lemma_skip_ws_stop(s, jv);
        assert(skip_ws(s, j2) == jv);
        assert(clamp_pos(jv, j2, s.len() as int) == jv);
        lemma_rt_val(s, jv, e0.value);
        let p = jv + a3.len() as int;
        lemma_matches_index(s, seq!['\n'], p, 0);
        assert(s[p] == '\n');
        assert(advance(p, jv, s.len() as int) == p);
        // After the line break the remaining entries follow.
        lemma_matches_index(s, tail, p + 1, 0);
        lemma_entries_head_shape(rest, s[p + 1]);
        lemma_skip_ws_stop(s, p + 1);
        assert(skip_ws(s, p) == p + 1);
        lemma_rt_entries(s, p, rest);
        assert(parse_entries(s, p) == Some((rest, p + 1 + ser_entries(rest).len() + 1)));
        assert(seq![SpecEntry { key: e0.key, value: e0.value }] + rest =~= es) by {
            assert(SpecEntry { key: e0.key, value: e0.value } == e0);
        }
        assert(ser_entry(e0).len() == a1.len() + 1 + a3.len() + 1);
    }
}

/// What the serializer writes for a well-formed document, the reader reads
/// back unchanged.
pub proof fn lemma_round_trip(key: Seq<char>, v: SpecValue)
    requires
        wf_str(key),
        wf_val(v),
    ensures
        parse_doc(ser_doc(key, v)) == Some((key, v)),
{
    let s = ser_doc(key, v);
    let a1 = quoted(key);
    let a3 = ser_val(v);
    assert(s =~= a1 + (seq![' '] + (a3 + seq!['\n'])));
    assert(matches_at(s, s, 0)) by {
        assert(s.subrange(0, s.len() as int) =~= s);
    }
    lemma_matches_concat(s, a1, seq![' '] + (a3 + seq!['\n']), 0);
    lemma_matches_concat(s, seq![' '], a3 + seq!['\n'], a1.len() as int);
    lemma_matches_concat(s, a3, seq!['\n'], a1.len() as int + 1);
    lemma_matches_index(s, a1, 0, 0);
    lemma_skip_ws_stop(s, 0);
    lemma_parse_quoted_exact(s, 0, key);
    lemma_matches_index(s, seq![' '], a1.len() as int, 0);
    let jv = a1.len() as int + 1;
    lemma_ser_val_shape(v);
    lemma_matches_index(s, a3, jv, 0);
    lemma_skip_ws_stop(s, jv);
    assert(skip_ws(s, a1.len() as int) == jv);
    lemma_rt_val(s, jv, v);
    let p = jv + a3.len() as int;
    lemma_matches_index(s, seq!['\n'], p, 0);
    assert(s[p] == '\n');
    assert(skip_ws(s, p) == skip_ws(s, p + 1));
    assert(p + 1 == s.len());
    assert(skip_ws(s, p + 1) == s.len());
}

// ---------------------------------------------------------------------------
// Whatever parses is well formed.
// ---------------------------------------------------------------------------

proof fn lemma_parse_val_wf(s: Seq<char>, i: int)
    ensures
        match parse_val(s, i) {
            Some((v, _)) => wf_val(v),
            None => true,
        },
    decreases s.len() - i, 1int,
{
    if 0 <= i < s.len() {
        if s[i] == '"' {
            lemma_parse_quoted_bounds(s, i);
        } else if s[i] == '{' {
            lemma_parse_entries_wf(s, i + 1);
        }
    }
}

proof fn lemma_parse_entries_wf(s: Seq<char>, i: int)
    ensures
        match parse_entries(s, i) {
            Some((es, _)) => wf_entries(es),
            None => true,
        },
    decreases s.len() - i, 0int,
{
    if 0 <= i < s.len() {
        let j0 = skip_ws(s, i);
        let j = if j0 > i {
            j0
        } else {
            i
        };
        if j < s.len() && s[j] != '}' {
            match parse_quoted(s, j) {
                None => {},
                Some((k, j2r)) => {
                    lemma_parse_quoted_bounds(s, j);
                    let j2 = advance(j2r, j, s.len() as int);
                    let j3 = clamp_pos(skip_ws(s, j2), j2, s.len() as int);
                    lemma_parse_val_wf(s, j3);
                    match parse_val(s, j3) {
                        None => {},
                        Some((v, j4r)) => {
                            let j4 = advance(j4r, j3, s.len() as int);
                            lemma_parse_entries_wf(s, j4);
                            match parse_entries(s, j4) {
                                None => {},
                                Some((rest, _)) => {
                                    let head = SpecEntry { key: k, value: v };
                                    assert((seq![head] + rest).drop_first() =~= rest);
                                    assert((seq![head] + rest)[0] == head);
                                },
                            }
                        },
                    }
                },
            }
        }
    }
}

/// A parsed document has only quote-free keys and strings.
pub proof fn lemma_parse_doc_wf(s: Seq<char>)
    ensures
        match parse_doc(s) {
            Some((key, v)) => wf_str(key) && wf_val(v),
            None => true,
        },
{
    let i0 = skip_ws(s, 0);
    match parse_quoted(s, i0) {
        None => {},
        Some((key, j)) => {
            lemma_parse_quoted_bounds(s, i0);
            let j2 = skip_ws(s, j);
            lemma_parse_val_wf(s, j2);
        },
    }
}

} // verus!

verus! {

// ---------------------------------------------------------------------------
// Tree lookup and update.
// ---------------------------------------------------------------------------

/// Value of the first entry with this key, if any.
pub open spec fn obj_get(es: Seq<SpecEntry>, key: Seq<char>) -> Option<SpecValue>
    decreases es,
{
    if es.len() == 0 {
        None
    } else if es[0].key == key {
        Some(es[0].value)
    } else {
        obj_get(es.drop_first(), key)
    }
}

/// Replaces the value of the first entry with this key by the given string,
/// or appends a new entry at the end when the key is absent.  All other
/// entries are kept in order.
pub open spec fn obj_set(es: Seq<SpecEntry>, key: Seq<char>, value: Seq<char>) -> Seq<SpecEntry>
    decreases es,
{
    if es.len() == 0 {
        seq![SpecEntry { key: key, value: SpecValue::Str(value) }]
    } else if es[0].key == key {
        seq![SpecEntry { key: key, value: SpecValue::Str(value) }] + es.drop_first()
    } else {
        seq![es[0]] + obj_set(es.drop_first(), key, value)
    }
}

/// After an update, the key reads back as the string just written.
pub proof fn lemma_obj_set_get(es: Seq<SpecEntry>, key: Seq<char>, value: Seq<char>)
    ensures
        obj_get(obj_set(es, key, value), key) == Some(SpecValue::Str(value)),
    decreases es,
{
    let r = obj_set(es, key, value);
    if es.len() == 0 {
    } else if es[0].key == key {
    } else {
        lemma_obj_set_get(es.drop_first(), key, value);
        assert(r.drop_first() =~= obj_set(es.drop_first(), key, value));
    }
}

/// Writing the same key and value twice changes nothing the second time.
pub proof fn lemma_obj_set_idempotent(es: Seq<SpecEntry>, key: Seq<char>, value: Seq<char>)
    ensures
        obj_set(obj_set(es, key, value), key, value) =~= obj_set(es, key, value),
    decreases es,
{
    let e = SpecEntry { key: key, value: SpecValue::Str(value) };
    if es.len() == 0 {
        let one = seq![e];
        assert(one[0].key == key);
        assert(obj_set(one, key, value) =~= one) by {
            assert(one.drop_first() =~= Seq::<SpecEntry>::empty());
        }
    } else if es[0].key == key {
        let r = seq![e] + es.drop_first();
        assert(r[0].key == key);
        assert(obj_set(r, key, value) =~= r) by {
            assert(r.drop_first() =~= es.drop_first());
        }
    } else {
        lemma_obj_set_idempotent(es.drop_first(), key, value);
        let r = seq![es[0]] + obj_set(es.drop_first(), key, value);
        assert(r[0].key != key);
        assert(r.drop_first() =~= obj_set(es.drop_first(), key, value));
        assert(obj_set(r, key, value) =~= seq![r[0]] + obj_set(r.drop_first(), key, value));
        assert(obj_set(r, key, value) =~= r);
    }
}

/// Updates keep the entry list well formed.
pub proof fn lemma_obj_set_wf(es: Seq<SpecEntry>, key: Seq<char>, value: Seq<char>)
    requires
        wf_entries(es),
        wf_str(key),
        wf_str(value),
    ensures
        wf_entries(obj_set(es, key, value)),
    decreases es,
{
    let e = SpecEntry { key: key, value: SpecValue::Str(value) };
    assert(wf_val(e.value));
    if es.len() == 0 {
        let one = seq![e];
        assert(one[0] == e);
        assert(one.drop_first() =~= Seq::<SpecEntry>::empty());
        assert(wf_entries(one.drop_first()));
        assert(wf_entries(one));
        assert(obj_set(es, key, value) == one);
    } else if es[0].key == key {
        let r = seq![e] + es.drop_first();
        assert(r[0] == e);
        assert(r.drop_first() =~= es.drop_first());
        assert(wf_entries(r));
        assert(obj_set(es, key, value) == r);
    } else {
        lemma_obj_set_wf(es.drop_first(), key, value);
        let r = seq![es[0]] + obj_set(es.drop_first(), key, value);
        assert(r[0] == es[0]);
        assert(r.drop_first() =~= obj_set(es.drop_first(), key, value));
        assert(wf_entries(r));
        assert(obj_set(es, key, value) == r);
    }
}

// ---------------------------------------------------------------------------
// The whole-text update: parse, fall back to an empty container on failure,
// update one top-level field, write out.
// ---------------------------------------------------------------------------

/// Root key used when a document has to be made from nothing, and the
/// wrapper key the lookup convention descends through.
pub open spec fn wrapper_key() -> Seq<char> {
    "UserLocalConfigStore"@
}

/// The outer key and top-level entries of a text, with the fall-backs the
/// format asks for: unreadable text is an empty container, and a root whose
/// value is a bare string is treated as empty too.
pub open spec fn doc_root(text: Seq<char>) -> (Seq<char>, Seq<SpecEntry>) {
    match parse_doc(text) {
        Some((k, SpecValue::Obj(es))) => (k, es),
        Some((k, SpecValue::Str(_))) => (k, Seq::empty()),
        None => (wrapper_key(), Seq::empty()),
    }
}

/// Text after setting one top-level field.
pub open spec fn spec_set_or_insert(text: Seq<char>, key: Seq<char>, value: Seq<char>) -> Seq<
    char,
> {
    let (k, es) = doc_root(text);
    ser_doc(k, SpecValue::Obj(obj_set(es, key, value)))
}

proof fn lemma_wrapper_key_wf()
    ensures
        wf_str(wrapper_key()),
{
    reveal_strlit("UserLocalConfigStore");
}

proof fn lemma_doc_root_wf(text: Seq<char>)
    ensures
        wf_str(doc_root(text).0),
        wf_entries(doc_root(text).1),
{
    lemma_parse_doc_wf(text);
    lemma_wrapper_key_wf();
}

/// Applying the same top-level update twice yields the identical text that
/// one application yields.
pub proof fn lemma_set_or_insert_idempotent(text: Seq<char>, key: Seq<char>, value: Seq<char>)
    requires
        wf_str(key),
        wf_str(value),
    ensures
        spec_set_or_insert(spec_set_or_insert(text, key, value), key, value)
            == spec_set_or_insert(text, key, value),
{
    let (k0, es0) = doc_root(text);
    lemma_doc_root_wf(text);
    let es1 = obj_set(es0, key, value);
    lemma_obj_set_wf(es0, key, value);
    let out = ser_doc(k0, SpecValue::Obj(es1));
    lemma_round_trip(k0, SpecValue::Obj(es1));
    assert(doc_root(out) == (k0, es1));
    lemma_obj_set_idempotent(es0, key, value);
    assert(SpecValue::Obj(obj_set(es1, key, value)) =~~= SpecValue::Obj(es1));
}

/// A document produced by the update parses, and the key just set reads
/// back as the value just written.
pub proof fn lemma_set_or_insert_get(text: Seq<char>, key: Seq<char>, value: Seq<char>)
    requires
        wf_str(key),
        wf_str(value),
    ensures
        ({
            let out = spec_set_or_insert(text, key, value);
            match parse_doc(out) {
                Some((_, SpecValue::Obj(es))) => obj_get(es, key) == Some(
                    SpecValue::Str(value),
                ),
                _ => false,
            }
        }),
{
    let (k0, es0) = doc_root(text);
    lemma_doc_root_wf(text);
    lemma_obj_set_wf(es0, key, value);
    lemma_round_trip(k0, SpecValue::Obj(obj_set(es0, key, value)));
    lemma_obj_set_get(es0, key, value);
}

// ---------------------------------------------------------------------------
// Path lookup with the wrapper convention.
// ---------------------------------------------------------------------------

/// Follows a key path downward from an entry list.
pub open spec fn get_path(es: Seq<SpecEntry>, path: Seq<Seq<char>>) -> Option<SpecValue>
    decreases path.len(),
{
    if path.len() == 0 {
        Some(SpecValue::Obj(es))
    } else {
        match obj_get(es, path[0]) {
            None => None,
            Some(v) => {
                if path.len() == 1 {
                    Some(v)
                } else {
                    match v {
                        SpecValue::Obj(inner) => get_path(inner, path.drop_first()),
                        SpecValue::Str(_) => None,
                    }
                }
            },
        }
    }
}

/// The top-level entries a lookup works on: when the root object holds the
/// well-known wrapper key with an object under it, the lookup descends into
/// it, otherwise it uses the root object itself.
pub open spec fn unwrapped_root(v: SpecValue) -> Option<Seq<SpecEntry>> {
    match v {
        SpecValue::Obj(es) => match obj_get(es, wrapper_key()) {
            Some(SpecValue::Obj(inner)) => Some(inner),
            _ => Some(es),
        },
        SpecValue::Str(_) => None,
    }
}

} // verus!

verus! {

// ---------------------------------------------------------------------------
// Executable reader and writer.
// ---------------------------------------------------------------------------

/// The text could not be read as one well-formed document.
pub enum ParseError {
    Syntax,
}

pub proof fn lemma_view_entries_props(es: Seq<Entry>)
    ensures
        Value::view_entries(es).len() == es.len(),
        forall|i: int|
            0 <= i < es.len() ==> #[trigger] Value::view_entries(es)[i] == (SpecEntry {
                key: es[i].key@,
                value: es[i].value.view(),
            }),
    decreases es,
{
    if es.len() > 0 {
        lemma_view_entries_props(es.drop_first());
        let ve = Value::view_entries(es);
        assert forall|i: int|
            0 <= i < es.len() implies #[trigger] Value::view_entries(es)[i] == (SpecEntry {
            key: es[i].key@,
            value: es[i].value.view(),
        }) by {
            if i > 0 {
                assert(Value::view_entries(es)[i] == Value::view_entries(es.drop_first())[i - 1]);
                assert(es.drop_first()[i - 1] == es[i]);
            }
        }
    }
}

proof fn lemma_view_entries_push(es: Seq<Entry>, e: Entry)
    ensures
        Value::view_entries(es.push(e)) == Value::view_entries(es) + seq![
            SpecEntry { key: e.key@, value: e.value.view() },
        ],
    decreases es,
{
    if es.len() == 0 {
        let one = es.push(e);
        assert(one[0] == e);
        assert(one.drop_first() =~= Seq::<Entry>::empty());
        assert(Value::view_entries(one.drop_first()) == Seq::<SpecEntry>::empty());
        assert(Value::view_entries(one) == seq![SpecEntry { key: e.key@, value: e.value.view() }]
            + Value::view_entries(one.drop_first()));
        assert(Value::view_entries(es.push(e)) =~= Value::view_entries(es) + seq![
            SpecEntry { key: e.key@, value: e.value.view() },
        ]);
    } else {
        lemma_view_entries_push(es.drop_first(), e);
        let h = SpecEntry { key: es[0].key@, value: es[0].value.view() };
        let esp = SpecEntry { key: e.key@, value: e.value.view() };
        let t = es.drop_first();
        assert(es.push(e)[0] == es[0]);
        assert(es.push(e).drop_first() =~= t.push(e));
        assert(Value::view_entries(es.push(e)) == seq![h] + Value::view_entries(t.push(e)));
        assert(Value::view_entries(es) == seq![h] + Value::view_entries(t));
        assert(seq![h] + (Value::view_entries(t) + seq![esp]) =~= (seq![h] + Value::view_entries(t))
            + seq![esp]);
    }
}

fn subvec_chars(s: &Vec<char>, a: usize, b: usize) -> (v: Vec<char>)
    requires
        a <= b <= s@.len(),
    ensures
        v@ == s@.subrange(a as int, b as int),
{
    let mut v: Vec<char> = Vec::new();
    let mut i: usize = a;
    while i < b
        invariant
            a <= i <= b <= s@.len(),
            v@ == s@.subrange(a as int, i as int),
        decreases b - i,
    {
        v.push(s[i]);
        i = i + 1;
        proof {
            assert(v@ =~= s@.subrange(a as int, i as int));
        }
    }
    v
}

fn push_str_chars(out: &mut Vec<char>, s: &str)
    ensures
        final(out)@ == old(out)@ + s@,
{
    let n = s.unicode_len();
    let mut i: usize = 0;
    while i < n
        invariant
            i <= n,
            n == s@.len(),
            out@ == old(out)@ + s@.subrange(0, i as int),
        decreases n - i,
    {
        out.push(s.get_char(i));
        i = i + 1;
        proof {
            assert(old(out)@ + s@.subrange(0, i - 1) + seq![s@[i - 1]] =~= old(out)@ + s@.subrange(
                0,
                i as int,
            ));
        }
    }
    proof {
        assert(out@ =~= old(out)@ + s@);
    }
}

fn skip_ws_x(s: &Vec<char>, i: usize) -> (j: usize)
    requires
        i <= s@.len(),
    ensures
        j as int == skip_ws(s@, i as int),
        i <= j <= s@.len(),
    decreases s@.len() - i,
{
    proof {
        lemma_skip_ws_bounds(s@, i as int);
    }
    let mut j = i;
    loop
        invariant
            i <= j <= s@.len(),
            skip_ws(s@, i as int) == skip_ws(s@, j as int),
        ensures
            j as int == skip_ws(s@, i as int),
            i <= j <= s@.len(),
        decreases s@.len() - j,
    {
        if j == s.len() {
            break ;
        }
        let c = s[j];
        if is_ws_char(c) {
            j = j + 1;
        } else if c == '/' && j + 1 < s.len() && s[j + 1] == '/' {
            let mut k = j + 2;
            while k < s.len() && s[k] != '\n'
                invariant
                    j + 2 <= k <= s@.len(),
                    skip_comment(s@, (j + 2) as int) == skip_comment(s@, k as int),
                decreases s@.len() - k,
            {
                k = k + 1;
            }
            if k == s.len() {
                j = k;
                break ;
            } else {
                j = k + 1;
            }
        } else {
            break ;
        }
    }
    j
}

fn parse_quoted_x(s: &Vec<char>, i: usize) -> (r: Option<(String, usize)>)
    requires
        i <= s@.len(),
    ensures
        match r {
            Some((t, p)) => parse_quoted(s@, i as int) == Some((t@, p as int)) && i + 2 <= p
                <= s@.len(),
            None => parse_quoted(s@, i as int) is None,
        },
{
    if i >= s.len() || s[i] != '"' {
        return None;
    }
    let mut k = i + 1;
    while k < s.len() && s[k] != '"'
        invariant
            i + 1 <= k <= s@.len(),
            find_quote(s@, (i + 1) as int) == find_quote(s@, k as int),
        decreases s@.len() - k,
    {
        k = k + 1;
    }
    if k == s.len() {
        return None;
    }
    let content = subvec_chars(s, i + 1, k);
    Some((chars_to_string(&content), k + 1))
}

fn parse_val_x(s: &Vec<char>, i: usize) -> (r: Option<(Value, usize)>)
    requires
        i <= s@.len(),
    ensures
        match r {
            Some((v, p)) => parse_val(s@, i as int) == Some((v@, p as int)) && i < p <= s@.len(),
            None => parse_val(s@, i as int) is None,
        },
    decreases s@.len() - i, 1int,
{
    if i >= s.len() {
        return None;
    }
    let c = s[i];
    if c == '"' {
        match parse_quoted_x(s, i) {
            Some((t, p)) => Some((Value::Str(t), p)),
            None => None,
        }
    } else if c == '{' {
        match parse_entries_x(s, i + 1) {
            Some((es, p)) => Some((Value::Obj(es), p)),
            None => None,
        }
    } else {
        None
    }
}

fn parse_entries_x(s: &Vec<char>, i: usize) -> (r: Option<(Vec<Entry>, usize)>)
    requires
        i <= s@.len(),
    ensures
        match r {
            Some((es, p)) => parse_entries(s@, i as int) == Some(
                (Value::view_entries(es@), p as int),
            ) && i < p <= s@.len(),
            None => parse_entries(s@, i as int) is None,
        },
    decreases s@.len() - i, 0int,
{
    if i >= s.len() {
        return None;
    }
    let j = skip_ws_x(s, i);
    proof {
        assert(clamp_pos(skip_ws(s@, i as int), i as int, s@.len() as int) == j as int);
    }
    if j == s.len() {
        return None;
    }
    if s[j] == '}' {
        let empty: Vec<Entry> = Vec::new();
        proof {
            assert(Value::view_entries(empty@) =~= Seq::<SpecEntry>::empty());
        }
        return Some((empty, j + 1));
    }
    match parse_quoted_x(s, j) {
        None => None,
        Some((k, j2)) => {
            proof {
                assert(advance(j2 as int, j as int, s@.len() as int) == j2 as int);
            }
            let j3 = skip_ws_x(s, j2);
            proof {
                assert(clamp_pos(skip_ws(s@, j2 as int), j2 as int, s@.len() as int) == j3 as int);
            }
            match parse_val_x(s, j3) {
                None => None,
                Some((v, j4)) => {
                    proof {
                        assert(advance(j4 as int, j3 as int, s@.len() as int) == j4 as int);
                    }
                    match parse_entries_x(s, j4) {
                        None => None,
                        Some((mut rest, j5)) => {
                            let ghost old_rest = rest@;
                            let e = Entry { key: k, value: v };
                            let ghost e_spec = SpecEntry { key: e.key@, value: e.value.view() };
                            rest.insert(0, e);
                            proof {
                                assert(rest@[0] == e);
                                assert(rest@.drop_first() =~= old_rest);
                                assert(Value::view_entries(rest@) == seq![e_spec]
                                    + Value::view_entries(old_rest));
                            }
                            Some((rest, j5))
                        },
                    }
                },
            }
        },
    }
}

/// Reads a whole document.  Fails when the text is not one well-formed
/// key/value document with nothing but layout after it.
pub fn parse(text: &str) -> (r: Result<Doc, ParseError>)
    ensures
        match r {
            Ok(d) => parse_doc(text@) == Some((d.key@, d.value@)),
            Err(_) => parse_doc(text@) is None,
        },
{
    let cs = str_to_chars(text);
    let i0 = skip_ws_x(&cs, 0);
    match parse_quoted_x(&cs, i0) {
        None => Err(ParseError::Syntax),
        Some((key, j)) => {
            let j2 = skip_ws_x(&cs, j);
            match parse_val_x(&cs, j2) {
                None => Err(ParseError::Syntax),
                Some((v, j3)) => {
                    let e = skip_ws_x(&cs, j3);
                    if e == cs.len() {
                        Ok(Doc { key, value: v })
                    } else {
                        Err(ParseError::Syntax)
                    }
                },
            }
        },
    }
}

#[verifier::loop_isolation(false)]
fn ser_val_x(v: &Value, out: &mut Vec<char>)
    ensures
        final(out)@ == old(out)@ + ser_val(v@),
    decreases v,
{
    match v {
        Value::Str(t) => {
            out.push('"');
            push_str_chars(out, t.as_str());
            out.push('"');
            proof {
                assert(out@ =~= old(out)@ + ser_val(v@));
            }
        },
        Value::Obj(es) => {
            out.push('{');
            out.push('\n');
            proof {
                lemma_view_entries_props(es@);
            }
            let ghost ve = Value::view_entries(es@);
            let mut idx: usize = 0;
            while idx < es.len()
                invariant
                    idx <= es@.len(),
                    ve == Value::view_entries(es@),
                    ve.len() == es@.len(),
                    forall|i: int|
                        0 <= i < es@.len() ==> #[trigger] ve[i] == (SpecEntry {
                            key: es@[i].key@,
                            value: es@[i].value.view(),
                        }),
                    out@ == old(out)@ + seq!['{', '\n'] + ser_entries(ve.subrange(0, idx as int)),
                decreases es@.len() - idx,
            {
                let ghost before = out@;
                proof {
                    assert(decreases_to!(*v => v->Obj_0));
                    assert(v->Obj_0 == *es);
                    assert(decreases_to!(*es => es[idx as int]));
                    assert(decreases_to!(es[idx as int] => es[idx as int].value));
                }
                out.push('"');
                push_str_chars(out, es[idx].key.as_str());
                out.push('"');
                out.push(' ');
                ser_val_x(&es[idx].value, out);
                out.push('\n');
                proof {
                    lemma_ser_entries_app(ve.subrange(0, idx as int), seq![ve[idx as int]]);
                    assert(ve.subrange(0, idx as int) + seq![ve[idx as int]] =~= ve.subrange(
                        0,
                        idx as int + 1,
                    ));
                    assert(ser_entries(seq![ve[idx as int]]) =~= ser_entry(ve[idx as int])) by {
                        assert(seq![ve[idx as int]][0] == ve[idx as int]);
                        assert(seq![ve[idx as int]].drop_first() =~= Seq::<SpecEntry>::empty());
                        assert(ser_entries(seq![ve[idx as int]].drop_first()) == Seq::<
                            char,
                        >::empty());
                    }
                    assert(out@ =~= before + ser_entry(ve[idx as int]));
                }
                idx = idx + 1;
            }
            out.push('}');
            proof {
                assert(ve.subrange(0, es@.len() as int) =~= ve);
                assert(out@ =~= old(out)@ + ser_val(v@));
            }
        },
    }
}

proof fn lemma_ser_entries_app(a: Seq<SpecEntry>, b: Seq<SpecEntry>)
    ensures
        ser_entries(a + b) == ser_entries(a) + ser_entries(b),
    decreases a,
{
    if a.len() == 0 {
        assert(a + b =~= b);
    } else {
        lemma_ser_entries_app(a.drop_first(), b);
        assert((a + b)[0] == a[0]);
        assert((a + b).drop_first() =~= a.drop_first() + b);
        assert(ser_entries(a + b) =~= ser_entries(a) + ser_entries(b));
    }
}

/// Writes a document out as text.
pub fn to_text(d: &Doc) -> (r: String)
    ensures
        r@ == ser_doc(d.key@, d.value@),
{
    let mut out: Vec<char> = Vec::new();
    out.push('"');
    push_str_chars(&mut out, d.key.as_str());
    out.push('"');
    out.push(' ');
    ser_val_x(&d.value, &mut out);
    out.push('\n');
    proof {
        assert(out@ =~= ser_doc(d.key@, d.value@));
    }
    chars_to_string(&out)
}

} // verus!

verus! {

/// Reference to the value of the first entry with this key.
pub fn obj_lookup<'a>(es: &'a Vec<Entry>, key: &str) -> (r: Option<&'a Value>)
    ensures
        match r {
            Some(v) => obj_get(Value::view_entries(es@), key@) == Some(v@),
            None => obj_get(Value::view_entries(es@), key@) is None,
        },
{
    proof {
        lemma_view_entries_props(es@);
    }
    let ghost ve = Value::view_entries(es@);
    proof {
        assert(ve.subrange(0, ve.len() as int) =~= ve);
    }
    let mut i: usize = 0;
    while i < es.len()
        invariant
            i <= es@.len(),
            ve == Value::view_entries(es@),
            ve.len() == es@.len(),
            forall|k: int|
                0 <= k < es@.len() ==> #[trigger] ve[k] == (SpecEntry {
                    key: es@[k].key@,
                    value: es@[k].value.view(),
                }),
            obj_get(ve, key@) == obj_get(ve.subrange(i as int, ve.len() as int), key@),
        decreases es@.len() - i,
    {
        let ghost tail = ve.subrange(i as int, ve.len() as int);
        proof {
            assert(tail[0] == ve[i as int]);
            assert(tail.drop_first() =~= ve.subrange(i as int + 1, ve.len() as int));
        }
        if crate::strutil::str_eq(es[i].key.as_str(), key) {
            return Some(&es[i].value);
        }
        i = i + 1;
    }
    proof {
        assert(ve.subrange(ve.len() as int, ve.len() as int) =~= Seq::<SpecEntry>::empty());
    }
    None
}

/// Follows a key path downward from a value.
pub open spec fn get_path_val(v: SpecValue, path: Seq<Seq<char>>) -> Option<SpecValue>
    decreases path.len(),
{
    if path.len() == 0 {
        Some(v)
    } else {
        match v {
            SpecValue::Obj(es) => match obj_get(es, path[0]) {
                Some(w) => get_path_val(w, path.drop_first()),
                None => None,
            },
            SpecValue::Str(_) => None,
        }
    }
}

/// What a lookup on a document finds: the root object — or the object under
/// the well-known wrapper key, when one is present — walked down the path.
pub open spec fn spec_get(docval: SpecValue, path: Seq<Seq<char>>) -> Option<SpecValue> {
    match unwrapped_root(docval) {
        None => None,
        Some(es) => get_path_val(SpecValue::Obj(es), path),
    }
}

/// Walks a key path down a document, descending through the wrapper key
/// first when the root holds one.
pub fn get<'a>(d: &'a Doc, path: &Vec<String>) -> (r: Option<&'a Value>)
    ensures
        match r {
            Some(v) => spec_get(d.value@, path.deep_view()) == Some(v@),
            None => spec_get(d.value@, path.deep_view()) is None,
        },
{
    let root: &Vec<Entry> = match &d.value {
        Value::Obj(es) => es,
        Value::Str(_) => {
            return None;
        },
    };
    let start: &Value = match obj_lookup(root, "UserLocalConfigStore") {
        Some(inner) => {
            proof {
                reveal_strlit("UserLocalConfigStore");
            }
            match inner {
                Value::Obj(_) => inner,
                Value::Str(_) => &d.value,
            }
        },
        None => {
            proof {
                reveal_strlit("UserLocalConfigStore");
            }
            &d.value
        },
    };
    let ghost full: Seq<Seq<char>> = path.deep_view();
    proof {
        assert(full.subrange(0, full.len() as int) =~= full);
    }
    let mut cur: &Value = start;
    let mut i: usize = 0;
    while i < path.len()
        invariant
            i <= path@.len(),
            full == path.deep_view(),
            full.len() == path@.len(),
            spec_get(d.value@, full) == get_path_val(cur@, full.subrange(i as int, full.len() as int)),
        decreases path@.len() - i,
    {
        let ghost rest = full.subrange(i as int, full.len() as int);
        proof {
            assert(rest[0] == full[i as int]);
            assert(full[i as int] == path@[i as int]@);
            assert(rest.drop_first() =~= full.subrange(i as int + 1, full.len() as int));
        }
        match cur {
            Value::Str(_) => {
                return None;
            },
            Value::Obj(es) => {
                match obj_lookup(es, path[i].as_str()) {
                    Some(v) => {
                        cur = v;
                    },
                    None => {
                        return None;
                    },
                }
            },
        }
        i = i + 1;
    }
    proof {
        assert(full.subrange(full.len() as int, full.len() as int) =~= Seq::<Seq<char>>::empty());
    }
    Some(cur)
}

/// Replaces the value of the first entry with this key, or appends the
/// pair at the end.
fn obj_set_x(es: Vec<Entry>, key: &str, value: &str) -> (r: Vec<Entry>)
    ensures
        Value::view_entries(r@) == obj_set(Value::view_entries(es@), key@, value@),
{
    let ghost orig = Value::view_entries(es@);
    let mut es = es;
    let mut out: Vec<Entry> = Vec::new();
    let mut replaced = false;
    proof {
        assert(Value::view_entries(out@) =~= Seq::<SpecEntry>::empty());
        assert(Seq::<SpecEntry>::empty() + obj_set(Value::view_entries(es@), key@, value@)
            =~= obj_set(orig, key@, value@));
    }
    while es.len() > 0
        invariant
            if replaced {
                obj_set(orig, key@, value@) == Value::view_entries(out@) + Value::view_entries(
                    es@,
                )
            } else {
                obj_set(orig, key@, value@) == Value::view_entries(out@) + obj_set(
                    Value::view_entries(es@),
                    key@,
                    value@,
                )
            },
        decreases es@.len(),
    {
        let ghost es_before = es@;
        let ghost out_before = out@;
        let e = es.remove(0);
        proof {
            assert(es@ =~= es_before.drop_first());
            assert(Value::view_entries(es_before) == seq![
                SpecEntry { key: e.key@, value: e.value.view() },
            ] + Value::view_entries(es@));
        }
        if !replaced && crate::strutil::str_eq(e.key.as_str(), key) {
            let ne = Entry { key: e.key, value: Value::Str(String::from_str(value)) };
            out.push(ne);
            replaced = true;
            proof {
                lemma_view_entries_push(out_before, ne);
                let xx = Value::view_entries(es_before);
                assert(xx[0] == (SpecEntry { key: e.key@, value: e.value.view() }));
                assert(xx.drop_first() =~= Value::view_entries(es@));
                assert(obj_set(xx, key@, value@) == seq![
                    SpecEntry { key: key@, value: SpecValue::Str(value@) },
                ] + Value::view_entries(es@));
                assert(Value::view_entries(out@) + Value::view_entries(es@) =~= Value::view_entries(
                    out_before,
                ) + (seq![SpecEntry { key: e.key@, value: SpecValue::Str(value@) }]
                    + Value::view_entries(es@)));
            }
        } else {
            let ghost e_spec = SpecEntry { key: e.key@, value: e.value.view() };
            out.push(e);
            proof {
                lemma_view_entries_push(out_before, e);
                if replaced {
                    assert(Value::view_entries(out@) + Value::view_entries(es@)
                        =~= Value::view_entries(out_before) + (seq![e_spec] + Value::view_entries(
                        es@,
                    )));
                } else {
                    let xx = Value::view_entries(es_before);
                    assert(xx[0] == e_spec);
                    assert(xx.drop_first() =~= Value::view_entries(es@));
                    assert(obj_set(Value::view_entries(es_before), key@, value@) == seq![e_spec]
                        + obj_set(Value::view_entries(es@), key@, value@));
                    assert(Value::view_entries(out@) + obj_set(Value::view_entries(es@), key@, value@)
                        =~= Value::view_entries(out_before) + (seq![e_spec] + obj_set(
                        Value::view_entries(es@),
                        key@,
                        value@,
                    )));
                }
            }
        }
    }
    if !replaced {
        let ghost out_before = out@;
        let ne = Entry { key: String::from_str(key), value: Value::Str(String::from_str(value)) };
        out.push(ne);
        proof {
            lemma_view_entries_push(out_before, ne);
            assert(Value::view_entries(es@) =~= Seq::<SpecEntry>::empty());
            assert(obj_set(Value::view_entries(es@), key@, value@) == seq![
                SpecEntry { key: key@, value: SpecValue::Str(value@) },
            ]);
        }
    } else {
        proof {
            assert(Value::view_entries(es@) =~= Seq::<SpecEntry>::empty());
            assert(Value::view_entries(out@) + Seq::<SpecEntry>::empty() =~= Value::view_entries(
                out@,
            ));
        }
    }
    out
}

/// Sets one top-level field of the document in `text` and writes the
/// document back out.  Text that does not parse, or whose root holds a bare
/// string, is treated as an empty container, so a first write builds a
/// minimal document from scratch.
pub fn set_or_insert(text: &str, key: &str, value: &str) -> (r: String)
    ensures
        r@ == spec_set_or_insert(text@, key@, value@),
{
    let (root_key, entries) = match parse(text) {
        Ok(d) => {
            match d.value {
                Value::Obj(es) => (d.key, es),
                Value::Str(_) => (d.key, Vec::new()),
            }
        },
        Err(_) => {
            proof {
                reveal_strlit("UserLocalConfigStore");
                assert("UserLocalConfigStore"@ =~= wrapper_key()) by {
                    reveal_strlit("UserLocalConfigStore");
                }
            }
            (String::from_str("UserLocalConfigStore"), Vec::new())
        },
    };
    proof {
        assert(Value::view_entries(Seq::<Entry>::empty()) == Seq::<SpecEntry>::empty());
    }
    let es2 = obj_set_x(entries, key, value);
    let d2 = Doc { key: root_key, value: Value::Obj(es2) };
    to_text(&d2)
}

} // verus!

verus! {

// ---------------------------------------------------------------------------
// Generic tree-walk update: descend a key path, creating blocks that are
// missing, and set or remove one field of the block the path ends at.
// ---------------------------------------------------------------------------

/// Drops every entry with this key; the rest is kept in order.  Documents
/// with duplicate entries for one key lose them all, so a lookup of the
/// key on the result finds nothing.
pub open spec fn obj_remove(es: Seq<SpecEntry>, key: Seq<char>) -> Seq<SpecEntry>
    decreases es,
{
    if es.len() == 0 {
        Seq::empty()
    } else if es[0].key == key {
        obj_remove(es.drop_first(), key)
    } else {
        seq![es[0]] + obj_remove(es.drop_first(), key)
    }
}

/// After a removal, the key reads back as absent, duplicates included.
pub proof fn lemma_obj_remove_get(es: Seq<SpecEntry>, key: Seq<char>)
    ensures
        obj_get(obj_remove(es, key), key) is None,
    decreases es,
{
    if es.len() > 0 {
        lemma_obj_remove_get(es.drop_first(), key);
        if es[0].key != key {
            let r = seq![es[0]] + obj_remove(es.drop_first(), key);
            assert(r[0] == es[0]);
            assert(r.drop_first() =~= obj_remove(es.drop_first(), key));
        }
    }
}

/// Descends the key path, taking the first entry with each path key — an
/// entry holding a bare string, or a missing entry, stands for an empty
/// block — and sets `key` to `value` in the block the path ends at.
pub open spec fn obj_set_path(
    es: Seq<SpecEntry>,
    path: Seq<Seq<char>>,
    key: Seq<char>,
    value: Seq<char>,
) -> Seq<SpecEntry>
    decreases path.len(), es.len(),
{
    if path.len() == 0 {
        obj_set(es, key, value)
    } else if es.len() == 0 {
        seq![
            SpecEntry {
                key: path[0],
                value: SpecValue::Obj(
                    obj_set_path(Seq::empty(), path.drop_first(), key, value),
                ),
            },
        ]
    } else if es[0].key == path[0] {
        let inner = match es[0].value {
            SpecValue::Obj(v) => v,
            SpecValue::Str(_) => Seq::empty(),
        };
        seq![
            SpecEntry {
                key: path[0],
                value: SpecValue::Obj(obj_set_path(inner, path.drop_first(), key, value)),
            },
        ] + es.drop_first()
    } else {
        seq![es[0]] + obj_set_path(es.drop_first(), path, key, value)
    }
}

/// Like `obj_set_path`, but the block the path ends at has every entry
/// with `key` removed instead.
pub open spec fn obj_remove_path(es: Seq<SpecEntry>, path: Seq<Seq<char>>, key: Seq<char>) -> Seq<
    SpecEntry,
>
    decreases path.len(), es.len(),
{
    if path.len() == 0 {
        obj_remove(es, key)
    } else if es.len() == 0 {
        seq![
            SpecEntry {
                key: path[0],
                value: SpecValue::Obj(obj_remove_path(Seq::empty(), path.drop_first(), key)),
            },
        ]
    } else if es[0].key == path[0] {
        let inner = match es[0].value {
            SpecValue::Obj(v) => v,
            SpecValue::Str(_) => Seq::empty(),
        };
        seq![
            SpecEntry {
                key: path[0],
                value: SpecValue::Obj(obj_remove_path(inner, path.drop_first(), key)),
            },
        ] + es.drop_first()
    } else {
        seq![es[0]] + obj_remove_path(es.drop_first(), path, key)
    }
}

/// Descends the key path and sets one field of the block it ends at.
pub fn set_path_x(es: Vec<Entry>, path: &Vec<String>, d: usize, key: &str, value: &str) -> (r: Vec<
    Entry,
>)
    requires
        d <= path@.len(),
    ensures
        Value::view_entries(r@) == obj_set_path(
            Value::view_entries(es@),
            path.deep_view().subrange(d as int, path.deep_view().len() as int),
            key@,
            value@,
        ),
    decreases path@.len() - d,
{
    let ghost spath = path.deep_view().subrange(d as int, path.deep_view().len() as int);
    if d == path.len() {
        proof {
            assert(spath.len() == 0);
        }
        return obj_set_x(es, key, value);
    }
    proof {
        assert(spath[0] == path.deep_view()[d as int]);
        assert(spath.drop_first() =~= path.deep_view().subrange(
            d as int + 1,
            path.deep_view().len() as int,
        ));
    }
    let ghost orig = Value::view_entries(es@);
    let plen: usize = path.len();
    let mut es = es;
    let mut out: Vec<Entry> = Vec::new();
    let mut replaced = false;
    proof {
        assert(Value::view_entries(out@) =~= Seq::<SpecEntry>::empty());
        assert(Seq::<SpecEntry>::empty() + obj_set_path(Value::view_entries(es@), spath, key@, value@)
            =~= obj_set_path(orig, spath, key@, value@));
    }
    while es.len() > 0
        invariant
            plen == path@.len(),
            d < plen,
            spath == path.deep_view().subrange(d as int, path.deep_view().len() as int),
            spath.len() == path@.len() - d,
            spath[0] == path@[d as int]@,
            spath.drop_first() == path.deep_view().subrange(
                d as int + 1,
                path.deep_view().len() as int,
            ),
            if replaced {
                obj_set_path(orig, spath, key@, value@) == Value::view_entries(out@)
                    + Value::view_entries(es@)
            } else {
                obj_set_path(orig, spath, key@, value@) == Value::view_entries(out@) + obj_set_path(
                    Value::view_entries(es@),
                    spath,
                    key@,
                    value@,
                )
            },
        decreases es@.len(),
    {
        let ghost es_before = es@;
        let ghost out_before = out@;
        let e = es.remove(0);
        proof {
            assert(es@ =~= es_before.drop_first());
            assert(Value::view_entries(es_before) == seq![
                SpecEntry { key: e.key@, value: e.value.view() },
            ] + Value::view_entries(es@));
        }
        let ghost e_spec = SpecEntry { key: e.key@, value: e.value.view() };
        if !replaced && crate::strutil::str_eq(e.key.as_str(), path[d].as_str()) {
            let inner: Vec<Entry> = match e.value {
                Value::Obj(v) => v,
                Value::Str(_) => Vec::new(),
            };
            let ghost inner_spec = Value::view_entries(inner@);
            proof {
                match e_spec.value {
                    SpecValue::Obj(v) => {
                        assert(inner_spec == v);
                    },
                    SpecValue::Str(_) => {
                        assert(inner_spec =~= Seq::<SpecEntry>::empty());
                    },
                }
            }
            let sub = set_path_x(inner, path, d + 1, key, value);
            let ne = Entry { key: e.key, value: Value::Obj(sub) };
            out.push(ne);
            replaced = true;
            proof {
                lemma_view_entries_push(out_before, ne);
                let xx = Value::view_entries(es_before);
                assert(xx[0] == e_spec);
                assert(xx.drop_first() =~= Value::view_entries(es@));
                assert(obj_set_path(xx, spath, key@, value@) == seq![
                    SpecEntry {
                        key: spath[0],
                        value: SpecValue::Obj(
                            obj_set_path(inner_spec, spath.drop_first(), key@, value@),
                        ),
                    },
                ] + Value::view_entries(es@));
                assert(SpecEntry { key: ne.key@, value: ne.value.view() } == (SpecEntry {
                    key: spath[0],
                    value: SpecValue::Obj(
                        obj_set_path(inner_spec, spath.drop_first(), key@, value@),
                    ),
                }));
                assert(Value::view_entries(out@) + Value::view_entries(es@) =~= Value::view_entries(
                    out_before,
                ) + (seq![
                    SpecEntry {
                        key: spath[0],
                        value: SpecValue::Obj(
                            obj_set_path(inner_spec, spath.drop_first(), key@, value@),
                        ),
                    },
                ] + Value::view_entries(es@)));
            }
        } else {
            out.push(e);
            proof {
                lemma_view_entries_push(out_before, e);
                let xx = Value::view_entries(es_before);
                assert(xx[0] == e_spec);
                assert(xx.drop_first() =~= Value::view_entries(es@));
                if replaced {
                    assert(Value::view_entries(out@) + Value::view_entries(es@)
                        =~= Value::view_entries(out_before) + (seq![e_spec] + Value::view_entries(
                        es@,
                    )));
                } else {
                    assert(obj_set_path(xx, spath, key@, value@) == seq![e_spec] + obj_set_path(
                        Value::view_entries(es@),
                        spath,
                        key@,
                        value@,
                    ));
                    assert(Value::view_entries(out@) + obj_set_path(
                        Value::view_entries(es@),
                        spath,
                        key@,
                        value@,
                    ) =~= Value::view_entries(out_before) + (seq![e_spec] + obj_set_path(
                        Value::view_entries(es@),
                        spath,
                        key@,
                        value@,
                    )));
                }
            }
        }
    }
    if !replaced {
        let ghost out_before = out@;
        let empty_in: Vec<Entry> = Vec::new();
        proof {
            assert(Value::view_entries(empty_in@) =~= Seq::<SpecEntry>::empty());
        }
        let sub = set_path_x(empty_in, path, d + 1, key, value);
        let ne = Entry { key: path[d].clone(), value: Value::Obj(sub) };
        out.push(ne);
        proof {
            lemma_view_entries_push(out_before, ne);
            assert(Value::view_entries(es@) =~= Seq::<SpecEntry>::empty());
            assert(obj_set_path(Value::view_entries(es@), spath, key@, value@) == seq![
                SpecEntry { key: ne.key@, value: ne.value.view() },
            ]);
        }
    } else {
        proof {
            assert(Value::view_entries(es@) =~= Seq::<SpecEntry>::empty());
            assert(Value::view_entries(out@) + Seq::<SpecEntry>::empty() =~= Value::view_entries(
                out@,
            ));
        }
    }
    out
}

} // verus!

verus! {

/// Descends the key path and removes one field of the block it ends at.
pub fn remove_path_x(es: Vec<Entry>, path: &Vec<String>, d: usize, key: &str) -> (r: Vec<Entry>)
    requires
        d <= path@.len(),
    ensures
        Value::view_entries(r@) == obj_remove_path(
            Value::view_entries(es@),
            path.deep_view().subrange(d as int, path.deep_view().len() as int),
            key@,
        ),
    decreases path@.len() - d,
{
    let ghost spath = path.deep_view().subrange(d as int, path.deep_view().len() as int);
    if d == path.len() {
        proof {
            assert(spath.len() == 0);
        }
        return obj_remove_x(es, key);
    }
    proof {
        assert(spath[0] == path.deep_view()[d as int]);
        assert(spath.drop_first() =~= path.deep_view().subrange(
            d as int + 1,
            path.deep_view().len() as int,
        ));
    }
    let ghost orig = Value::view_entries(es@);
    let plen: usize = path.len();
    let mut es = es;
    let mut out: Vec<Entry> = Vec::new();
    let mut replaced = false;
    proof {
        assert(Value::view_entries(out@) =~= Seq::<SpecEntry>::empty());
        assert(Seq::<SpecEntry>::empty() + obj_remove_path(Value::view_entries(es@), spath, key@)
            =~= obj_remove_path(orig, spath, key@));
    }
    while es.len() > 0
        invariant
            plen == path@.len(),
            d < plen,
            spath == path.deep_view().subrange(d as int, path.deep_view().len() as int),
            spath.len() == path@.len() - d,
            spath[0] == path@[d as int]@,
            spath.drop_first() == path.deep_view().subrange(
                d as int + 1,
                path.deep_view().len() as int,
            ),
            if replaced {
                obj_remove_path(orig, spath, key@) == Value::view_entries(out@)
                    + Value::view_entries(es@)
            } else {
                obj_remove_path(orig, spath, key@) == Value::view_entries(out@) + obj_remove_path(
                    Value::view_entries(es@),
                    spath,
                    key@,
                )
            },
        decreases es@.len(),
    {
        let ghost es_before = es@;
        let ghost out_before = out@;
        let e = es.remove(0);
        proof {
            assert(es@ =~= es_before.drop_first());
            assert(Value::view_entries(es_before) == seq![
                SpecEntry { key: e.key@, value: e.value.view() },
            ] + Value::view_entries(es@));
        }
        let ghost e_spec = SpecEntry { key: e.key@, value: e.value.view() };
        if !replaced && crate::strutil::str_eq(e.key.as_str(), path[d].as_str()) {
            let inner: Vec<Entry> = match e.value {
                Value::Obj(v) => v,
                Value::Str(_) => Vec::new(),
            };
            let ghost inner_spec = Value::view_entries(inner@);
            proof {
                match e_spec.value {
                    SpecValue::Obj(v) => {
                        assert(inner_spec == v);
                    },
                    SpecValue::Str(_) => {
                        assert(inner_spec =~= Seq::<SpecEntry>::empty());
                    },
                }
            }
            let sub = remove_path_x(inner, path, d + 1, key);
            let ne = Entry { key: e.key, value: Value::Obj(sub) };
            out.push(ne);
            replaced = true;
            proof {
                lemma_view_entries_push(out_before, ne);
                let xx = Value::view_entries(es_before);
                assert(xx[0] == e_spec);
                assert(xx.drop_first() =~= Value::view_entries(es@));
                assert(obj_remove_path(xx, spath, key@) == seq![
                    SpecEntry {
                        key: spath[0],
                        value: SpecValue::Obj(
                            obj_remove_path(inner_spec, spath.drop_first(), key@),
                        ),
                    },
                ] + Value::view_entries(es@));
                assert(SpecEntry { key: ne.key@, value: ne.value.view() } == (SpecEntry {
                    key: spath[0],
                    value: SpecValue::Obj(obj_remove_path(inner_spec, spath.drop_first(), key@)),
                }));
                assert(Value::view_entries(out@) + Value::view_entries(es@) =~= Value::view_entries(
                    out_before,
                ) + (seq![
                    SpecEntry {
                        key: spath[0],
                        value: SpecValue::Obj(
                            obj_remove_path(inner_spec, spath.drop_first(), key@),
                        ),
                    },
                ] + Value::view_entries(es@)));
            }
        } else {
            out.push(e);
            proof {
                lemma_view_entries_push(out_before, e);
                let xx = Value::view_entries(es_before);
                assert(xx[0] == e_spec);
                assert(xx.drop_first() =~= Value::view_entries(es@));
                if replaced {
                    assert(Value::view_entries(out@) + Value::view_entries(es@)
                        =~= Value::view_entries(out_before) + (seq![e_spec] + Value::view_entries(
                        es@,
                    )));
                } else {
                    assert(obj_remove_path(xx, spath, key@) == seq![e_spec] + obj_remove_path(
                        Value::view_entries(es@),
                        spath,
                        key@,
                    ));
                    assert(Value::view_entries(out@) + obj_remove_path(
                        Value::view_entries(es@),
                        spath,
                        key@,
                    ) =~= Value::view_entries(out_before) + (seq![e_spec] + obj_remove_path(
                        Value::view_entries(es@),
                        spath,
                        key@,
                    )));
                }
            }
        }
    }
    if !replaced {
        let ghost out_before = out@;
        let empty_in: Vec<Entry> = Vec::new();
        proof {
            assert(Value::view_entries(empty_in@) =~= Seq::<SpecEntry>::empty());
        }
        let sub = remove_path_x(empty_in, path, d + 1, key);
        let ne = Entry { key: path[d].clone(), value: Value::Obj(sub) };
        out.push(ne);
        proof {
            lemma_view_entries_push(out_before, ne);
            assert(Value::view_entries(es@) =~= Seq::<SpecEntry>::empty());
            assert(obj_remove_path(Value::view_entries(es@), spath, key@) == seq![
                SpecEntry { key: ne.key@, value: ne.value.view() },
            ]);
        }
    } else {
        proof {
            assert(Value::view_entries(es@) =~= Seq::<SpecEntry>::empty());
            assert(Value::view_entries(out@) + Seq::<SpecEntry>::empty() =~= Value::view_entries(
                out@,
            ));
        }
    }
    out
}

/// Removes every entry with this key from an entry list.
fn obj_remove_x(es: Vec<Entry>, key: &str) -> (r: Vec<Entry>)
    ensures
        Value::view_entries(r@) == obj_remove(Value::view_entries(es@), key@),
{
    let ghost orig = Value::view_entries(es@);
    let mut es = es;
    let mut out: Vec<Entry> = Vec::new();
    proof {
        assert(Value::view_entries(out@) =~= Seq::<SpecEntry>::empty());
        assert(Seq::<SpecEntry>::empty() + obj_remove(Value::view_entries(es@), key@) =~= obj_remove(
            orig,
            key@,
        ));
    }
    while es.len() > 0
        invariant
            obj_remove(orig, key@) == Value::view_entries(out@) + obj_remove(
                Value::view_entries(es@),
                key@,
            ),
        decreases es@.len(),
    {
        let ghost es_before = es@;
        let ghost out_before = out@;
        let e = es.remove(0);
        proof {
            assert(es@ =~= es_before.drop_first());
            assert(Value::view_entries(es_before) == seq![
                SpecEntry { key: e.key@, value: e.value.view() },
            ] + Value::view_entries(es@));
        }
        let ghost e_spec = SpecEntry { key: e.key@, value: e.value.view() };
        if crate::strutil::str_eq(e.key.as_str(), key) {
            proof {
                let xx = Value::view_entries(es_before);
                assert(xx[0] == e_spec);
                assert(xx.drop_first() =~= Value::view_entries(es@));
            }
        } else {
            out.push(e);
            proof {
                lemma_view_entries_push(out_before, e);
                let xx = Value::view_entries(es_before);
                assert(xx[0] == e_spec);
                assert(xx.drop_first() =~= Value::view_entries(es@));
                assert(Value::view_entries(out@) + obj_remove(Value::view_entries(es@), key@)
                    =~= Value::view_entries(out_before) + (seq![e_spec] + obj_remove(
                    Value::view_entries(es@),
                    key@,
                )));
            }
        }
    }
    proof {
        assert(Value::view_entries(es@) =~= Seq::<SpecEntry>::empty());
        assert(obj_remove(Value::view_entries(es@), key@) == Seq::<SpecEntry>::empty());
        assert(Value::view_entries(out@) + Seq::<SpecEntry>::empty() =~= Value::view_entries(out@));
    }
    out
}

/// Where a deep update applies: inside the object under the well-known
/// wrapper key when the root holds one, else at the root itself, written
/// as the path that the walk should take from the root.
pub open spec fn spec_wrapped_path(es: Seq<SpecEntry>, path: Seq<Seq<char>>) -> Seq<Seq<char>> {
    match obj_get(es, wrapper_key()) {
        Some(SpecValue::Obj(_)) => seq![wrapper_key()] + path,
        _ => path,
    }
}

/// Text after a deep update: the document is parsed with the empty-container
/// fall-backs, the path — routed through the wrapper when one is present —
/// is descended with missing blocks created, the field is set, and the
/// document is written out.
pub open spec fn spec_set_at(
    text: Seq<char>,
    path: Seq<Seq<char>>,
    key: Seq<char>,
    value: Seq<char>,
) -> Seq<char> {
    let (rk, es) = doc_root(text);
    ser_doc(rk, SpecValue::Obj(obj_set_path(es, spec_wrapped_path(es, path), key, value)))
}

/// Text after a deep removal, routed like `spec_set_at`.
pub open spec fn spec_remove_at(text: Seq<char>, path: Seq<Seq<char>>, key: Seq<char>) -> Seq<
    char,
> {
    let (rk, es) = doc_root(text);
    ser_doc(rk, SpecValue::Obj(obj_remove_path(es, spec_wrapped_path(es, path), key)))
}

fn doc_root_x(text: &str) -> (r: (String, Vec<Entry>))
    ensures
        r.0@ == doc_root(text@).0,
        Value::view_entries(r.1@) == doc_root(text@).1,
{
    match parse(text) {
        Ok(d) => {
            match d.value {
                Value::Obj(es) => (d.key, es),
                Value::Str(_) => {
                    let empty: Vec<Entry> = Vec::new();
                    proof {
                        assert(Value::view_entries(empty@) =~= Seq::<SpecEntry>::empty());
                    }
                    (d.key, empty)
                },
            }
        },
        Err(_) => {
            proof {
                reveal_strlit("UserLocalConfigStore");
                assert("UserLocalConfigStore"@ =~= wrapper_key()) by {
                    reveal_strlit("UserLocalConfigStore");
                }
            }
            let empty: Vec<Entry> = Vec::new();
            proof {
                assert(Value::view_entries(empty@) =~= Seq::<SpecEntry>::empty());
            }
            (String::from_str("UserLocalConfigStore"), empty)
        },
    }
}

fn wrapped_path_x(es: &Vec<Entry>, path: &Vec<String>) -> (r: Vec<String>)
    ensures
        r.deep_view() == spec_wrapped_path(Value::view_entries(es@), path.deep_view()),
{
    proof {
        reveal_strlit("UserLocalConfigStore");
        assert("UserLocalConfigStore"@ =~= wrapper_key()) by {
            reveal_strlit("UserLocalConfigStore");
        }
    }
    let wrapped = match obj_lookup(es, "UserLocalConfigStore") {
        Some(Value::Obj(_)) => true,
        _ => false,
    };
    let mut full: Vec<String> = Vec::new();
    if wrapped {
        full.push(String::from_str("UserLocalConfigStore"));
    }
    let mut i: usize = 0;
    while i < path.len()
        invariant
            i <= path@.len(),
            full@.len() == i + if wrapped {
                1int
            } else {
                0int
            },
            wrapped ==> full@[0]@ == wrapper_key(),
            forall|k: int|
                0 <= k < i ==> full@[k + if wrapped {
                    1int
                } else {
                    0int
                }]@ == path@[k]@,
        decreases path@.len() - i,
    {
        full.push(path[i].clone());
        i = i + 1;
    }
    proof {
        if wrapped {
            assert(full.deep_view() =~= seq![wrapper_key()] + path.deep_view());
        } else {
            assert(full.deep_view() =~= path.deep_view());
        }
    }
    full
}

/// Sets one field at a key path deep in the document in `text`, creating
/// missing blocks, descending through the wrapper key when the root holds
/// one, and writes the document back out.
pub fn set_at(text: &str, path: &Vec<String>, key: &str, value: &str) -> (r: String)
    ensures
        r@ == spec_set_at(text@, path.deep_view(), key@, value@),
{
    let (rk, es) = doc_root_x(text);
    let full = wrapped_path_x(&es, path);
    let es2 = set_path_x(es, &full, 0, key, value);
    proof {
        assert(full.deep_view().subrange(0, full.deep_view().len() as int) =~= full.deep_view());
    }
    let d2 = Doc { key: rk, value: Value::Obj(es2) };
    to_text(&d2)
}

/// Removes one field at a key path deep in the document in `text`, routed
/// like `set_at`, and writes the document back out.
pub fn remove_at(text: &str, path: &Vec<String>, key: &str) -> (r: String)
    ensures
        r@ == spec_remove_at(text@, path.deep_view(), key@),
{
    let (rk, es) = doc_root_x(text);
    let full = wrapped_path_x(&es, path);
    let es2 = remove_path_x(es, &full, 0, key);
    proof {
        assert(full.deep_view().subrange(0, full.deep_view().len() as int) =~= full.deep_view());
    }
    let d2 = Doc { key: rk, value: Value::Obj(es2) };
    to_text(&d2)
}

} // verus!
