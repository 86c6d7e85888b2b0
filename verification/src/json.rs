//! The wire codec: a small JSON object grammar.
//!
//! Every payload of the protocol is one JSON object whose fields hold string
//! values, written without mandatory whitespace and read with whitespace
//! allowed between tokens. The grammar is stated once as spec functions
//! (`parse_str_body`, `parse_pairs`, ..., `parse_payload`); the executable
//! parser and serializer are proved against those functions, and the
//! round-trip laws in `commands` are proved from them alone.

use vstd::prelude::*;

verus! {

/// Relies on `String::push` from std: it appends the given character to the
/// end of the string.
pub assume_specification[ String::push ](s: &mut String, c: char)
    ensures
        final(s)@ == old(s)@.push(c),
;

// ---------------------------------------------------------------------------
// Character classes and escapes
// ---------------------------------------------------------------------------

/// Whitespace accepted between tokens.
pub open spec fn is_ws(c: char) -> bool {
    c == ' ' || c == '\n' || c == '\r' || c == '\t'
}

/// What a backslash escape stands for; `None` for an escape the grammar
/// does not know.
pub open spec fn unescape_char(c: char) -> Option<char> {
    if c == '"' {
        Some('"')
    } else if c == '\\' {
        Some('\\')
    } else if c == '/' {
        Some('/')
    } else if c == 'n' {
        Some('\n')
    } else if c == 't' {
        Some('\t')
    } else if c == 'r' {
        Some('\r')
    } else if c == 'b' {
        Some('\u{8}')
    } else if c == 'f' {
        Some('\u{c}')
    } else {
        None
    }
}

/// How the serializer writes one character of a string value.
pub open spec fn escape_char(c: char) -> Seq<char> {
    if c == '"' {
        seq!['\\', '"']
    } else if c == '\\' {
        seq!['\\', '\\']
    } else if c == '\n' {
        seq!['\\', 'n']
    } else if c == '\t' {
        seq!['\\', 't']
    } else if c == '\r' {
        seq!['\\', 'r']
    } else {
        seq![c]
    }
}

// ---------------------------------------------------------------------------
// The parsing grammar, as spec functions
// ---------------------------------------------------------------------------

/// Parse the body of a string literal starting just after its opening
/// quote: the decoded characters and the index just past the closing quote.
pub open spec fn parse_str_body(t: Seq<char>, i: int) -> Option<(Seq<char>, int)>
    decreases t.len() - i,
{
    if i < 0 || i >= t.len() {
        None
    } else if t[i] == '"' {
        Some((Seq::empty(), i + 1))
    } else if t[i] == '\\' {
        if i + 1 < t.len() {
            match unescape_char(t[i + 1]) {
                Some(c) => match parse_str_body(t, i + 2) {
                    Some(p) => Some((seq![c] + p.0, p.1)),
                    None => None,
                },
                None => None,
            }
        } else {
            None
        }
    } else {
        match parse_str_body(t, i + 1) {
            Some(p) => Some((seq![t[i]] + p.0, p.1)),
            None => None,
        }
    }
}

/// Inside an object, before the first pair or the closing brace.
pub open spec fn parse_pairs(t: Seq<char>, i: int) -> Option<(Seq<(Seq<char>, Seq<char>)>, int)>
    decreases t.len() - i,
{
    if i < 0 || i >= t.len() {
        None
    } else if is_ws(t[i]) {
        parse_pairs(t, i + 1)
    } else if t[i] == '}' {
        Some((Seq::empty(), i + 1))
    } else if t[i] == '"' {
        match parse_str_body(t, i + 1) {
            Some(p) => if i + 1 < p.1 && p.1 <= t.len() {
                parse_after_key(t, p.1, p.0)
            } else {
                None
            },
            None => None,
        }
    } else {
        None
    }
}

/// After a pair's key, before its colon.
pub open spec fn parse_after_key(t: Seq<char>, i: int, key: Seq<char>) -> Option<
    (Seq<(Seq<char>, Seq<char>)>, int),
>
    decreases t.len() - i,
{
    if i < 0 || i >= t.len() {
        None
    } else if is_ws(t[i]) {
        parse_after_key(t, i + 1, key)
    } else if t[i] == ':' {
        parse_value_for(t, i + 1, key)
    } else {
        None
    }
}

/// After a pair's colon, before its string value.
pub open spec fn parse_value_for(t: Seq<char>, i: int, key: Seq<char>) -> Option<
    (Seq<(Seq<char>, Seq<char>)>, int),
>
    decreases t.len() - i,
{
    if i < 0 || i >= t.len() {
        None
    } else if is_ws(t[i]) {
        parse_value_for(t, i + 1, key)
    } else if t[i] == '"' {
        match parse_str_body(t, i + 1) {
            Some(p) => if i + 1 < p.1 && p.1 <= t.len() {
                match parse_pairs_rest(t, p.1) {
                    Some(q) => Some((seq![(key, p.0)] + q.0, q.1)),
                    None => None,
                }
            } else {
                None
            },
            None => None,
        }
    } else {
        None
    }
}

/// After a complete pair: a comma brings the next pair, a brace ends the
/// object.
pub open spec fn parse_pairs_rest(t: Seq<char>, i: int) -> Option<
    (Seq<(Seq<char>, Seq<char>)>, int),
>
    decreases t.len() - i,
{
    if i < 0 || i >= t.len() {
        None
    } else if is_ws(t[i]) {
        parse_pairs_rest(t, i + 1)
    } else if t[i] == '}' {
        Some((Seq::empty(), i + 1))
    } else if t[i] == ',' {
        parse_pair_next(t, i + 1)
    } else {
        None
    }
}

/// After a comma: the next pair's key must follow.
pub open spec fn parse_pair_next(t: Seq<char>, i: int) -> Option<(Seq<(Seq<char>, Seq<char>)>, int)>
    decreases t.len() - i,
{
    if i < 0 || i >= t.len() {
        None
    } else if is_ws(t[i]) {
        parse_pair_next(t, i + 1)
    } else if t[i] == '"' {
        match parse_str_body(t, i + 1) {
            Some(p) => if i + 1 < p.1 && p.1 <= t.len() {
                parse_after_key(t, p.1, p.0)
            } else {
                None
            },
            None => None,
        }
    } else {
        None
    }
}

/// Only whitespace from `i` to the end of the text.
pub open spec fn ws_from(t: Seq<char>, i: int) -> bool
    decreases t.len() - i,
{
    if i >= t.len() {
        true
    } else if is_ws(t[i]) {
        ws_from(t, i + 1)
    } else {
        false
    }
}

/// One object, preceded and followed by whitespace only.
pub open spec fn parse_object_from(t: Seq<char>, i: int) -> Option<Seq<(Seq<char>, Seq<char>)>>
    decreases t.len() - i,
{
    if i < 0 || i >= t.len() {
        None
    } else if is_ws(t[i]) {
        parse_object_from(t, i + 1)
    } else if t[i] == '{' {
        match parse_pairs(t, i + 1) {
            Some(p) => if ws_from(t, p.1) {
                Some(p.0)
            } else {
                None
            },
            None => None,
        }
    } else {
        None
    }
}

/// The payload grammar: what one inbound payload means, or `None` when it
/// is malformed.
pub open spec fn parse_payload(t: Seq<char>) -> Option<Seq<(Seq<char>, Seq<char>)>> {
    parse_object_from(t, 0)
}

/// The value of the first field named `key`; earlier fields win when a
/// key repeats.
pub open spec fn field_first(ps: Seq<(Seq<char>, Seq<char>)>, key: Seq<char>) -> Option<Seq<char>>
    decreases ps.len(),
{
    if ps.len() == 0 {
        None
    } else if ps[0].0 == key {
        Some(ps[0].1)
    } else {
        field_first(ps.drop_first(), key)
    }
}

// ---------------------------------------------------------------------------
// The serializer, as spec functions
// ---------------------------------------------------------------------------

/// The escaped body of a string literal.
pub open spec fn ser_str_body(s: Seq<char>) -> Seq<char>
    decreases s.len(),
{
    if s.len() == 0 {
        Seq::empty()
    } else {
        escape_char(s[0]) + ser_str_body(s.drop_first())
    }
}

/// A whole string literal, quotes included.
pub open spec fn ser_string(s: Seq<char>) -> Seq<char> {
    seq!['"'] + ser_str_body(s) + seq!['"']
}

/// An object of two string fields, written without whitespace, fields in
/// the given order.
pub open spec fn ser_obj2(k1: Seq<char>, v1: Seq<char>, k2: Seq<char>, v2: Seq<char>) -> Seq<
    char,
> {
    seq!['{'] + ser_string(k1) + seq![':'] + ser_string(v1) + seq![','] + ser_string(k2) + seq![':']
        + ser_string(v2) + seq!['}']
}

/// The comma-separated items of an array of strings, brackets excluded.
pub open spec fn ser_str_list(items: Seq<Seq<char>>) -> Seq<char>
    decreases items.len(),
{
    if items.len() == 0 {
        Seq::empty()
    } else if items.len() == 1 {
        ser_string(items[0])
    } else {
        ser_string(items[0]) + seq![','] + ser_str_list(items.drop_first())
    }
}

/// An object of one string field and one array-of-strings field, written
/// without whitespace.
pub open spec fn ser_obj_str_list(
    k1: Seq<char>,
    v1: Seq<char>,
    k2: Seq<char>,
    items: Seq<Seq<char>>,
) -> Seq<char> {
    seq!['{'] + ser_string(k1) + seq![':'] + ser_string(v1) + seq![','] + ser_string(k2) + seq![':']
        + seq!['['] + ser_str_list(items) + seq![']'] + seq!['}']
}

// ---------------------------------------------------------------------------
// Round trip: what the serializer writes, the grammar reads back
// ---------------------------------------------------------------------------

/// A serialized string body followed by its closing quote parses back to
/// the characters it came from, wherever it stands in a larger text.
pub proof fn lemma_parse_ser_str(t: Seq<char>, i: int, s: Seq<char>)
    requires
        0 <= i,
        i + ser_str_body(s).len() + 1 <= t.len(),
        t.subrange(i, i + ser_str_body(s).len() + 1) == ser_str_body(s) + seq!['"'],
    ensures
        parse_str_body(t, i) == Some((s, i + ser_str_body(s).len() + 1)),
    decreases s.len(),
{
    let b = ser_str_body(s);
    let sub = t.subrange(i, i + b.len() + 1);
    if s.len() == 0 {
        assert(t[i] == sub[0]);
        assert(sub[0] == '"');
        assert(s =~= Seq::<char>::empty());
    } else {
        let c = s[0];
        let e = escape_char(c);
        let rest = s.drop_first();
        let br = ser_str_body(rest);
        assert(b == e + br);
        assert(b + seq!['"'] =~= e + (br + seq!['"']));
        assert(t[i] == sub[0]);
        if c == '"' || c == '\\' || c == '\n' || c == '\t' || c == '\r' {
            assert(e.len() == 2);
            assert(e[0] == '\\');
            assert(unescape_char(e[1]) == Some(c));
            assert(t[i] == '\\');
            assert(t[i + 1] == sub[1]);
            assert(sub[1] == e[1]);
            let i2 = i + 2;
            assert(t.subrange(i2, i2 + br.len() + 1) =~= br + seq!['"']) by {
                assert forall|j: int| 0 <= j < br.len() + 1 implies t.subrange(
                    i2,
                    i2 + br.len() + 1,
                )[j] == (br + seq!['"'])[j] by {
                    assert(t.subrange(i2, i2 + br.len() + 1)[j] == t[i2 + j]);
                    assert(t[i2 + j] == sub[2 + j]);
                    assert(sub[2 + j] == (e + (br + seq!['"']))[2 + j]);
                    assert((e + (br + seq!['"']))[2 + j] == (br + seq!['"'])[j]);
                }
            }
            lemma_parse_ser_str(t, i2, rest);
            assert(seq![c] + rest =~= s);
        } else {
            assert(e =~= seq![c]);
            assert(t[i] == c);
            assert(c != '"' && c != '\\');
            let i2 = i + 1;
            assert(t.subrange(i2, i2 + br.len() + 1) =~= br + seq!['"']) by {
                assert forall|j: int| 0 <= j < br.len() + 1 implies t.subrange(
                    i2,
                    i2 + br.len() + 1,
                )[j] == (br + seq!['"'])[j] by {
                    assert(t.subrange(i2, i2 + br.len() + 1)[j] == t[i2 + j]);
                    assert(t[i2 + j] == sub[1 + j]);
                    assert(sub[1 + j] == (e + (br + seq!['"']))[1 + j]);
                    assert((e + (br + seq!['"']))[1 + j] == (br + seq!['"'])[j]);
                }
            }
            lemma_parse_ser_str(t, i2, rest);
            assert(seq![c] + rest =~= s);
        }
    }
}

/// A serialized string standing at `q` in a larger text: its opening
/// quote, and what parsing just after that quote yields.
proof fn lemma_subrange_at(t: Seq<char>, q: int, s: Seq<char>)
    requires
        0 <= q,
        q + ser_string(s).len() <= t.len(),
        t.subrange(q, q + ser_string(s).len()) == ser_string(s),
    ensures
        t[q] == '"',
        parse_str_body(t, q + 1) == Some((s, q + ser_string(s).len())),
{
    let ss = ser_string(s);
    let bs = ser_str_body(s);
    assert(ss =~= seq!['"'] + (bs + seq!['"']));
    assert(t[q] == t.subrange(q, q + ss.len())[0]);
    assert(t.subrange(q + 1, q + 1 + bs.len() + 1) =~= bs + seq!['"']) by {
        assert forall|j: int| 0 <= j < bs.len() + 1 implies t.subrange(
            q + 1,
            q + 1 + bs.len() + 1,
        )[j] == (bs + seq!['"'])[j] by {
            assert(t.subrange(q + 1, q + 1 + bs.len() + 1)[j] == t[q + 1 + j]);
            assert(t[q + 1 + j] == t.subrange(q, q + ss.len())[1 + j]);
            assert(ss[1 + j] == (bs + seq!['"'])[j]);
        }
    }
    lemma_parse_ser_str(t, q + 1, s);
}

/// A serialized two-field object parses back to exactly its two pairs.
#[verifier::rlimit(60)]
pub proof fn lemma_obj2_round_trip(k1: Seq<char>, v1: Seq<char>, k2: Seq<char>, v2: Seq<char>)
    ensures
        parse_payload(ser_obj2(k1, v1, k2, v2)) == Some(seq![(k1, v1), (k2, v2)]),
{
    let a = ser_string(k1);
    let b = ser_string(v1);
    let c = ser_string(k2);
    let d = ser_string(v2);
    let t = ser_obj2(k1, v1, k2, v2);
    let u1 = seq!['{'];
    let u2 = u1 + a;
    let u3 = u2 + seq![':'];
    let u4 = u3 + b;
    let u5 = u4 + seq![','];
    let u6 = u5 + c;
    let u7 = u6 + seq![':'];
    let u8 = u7 + d;
    let t2 = u8 + seq!['}'];
    assert(t =~= t2);
    let la = a.len() as int;
    let lb = b.len() as int;
    let lc = c.len() as int;
    let ld = d.len() as int;
    let o2 = 1 + la;
    let o3 = o2 + 1;
    let o4 = o3 + lb;
    let o5 = o4 + 1;
    let o6 = o5 + lc;
    let o7 = o6 + 1;
    let o8 = o7 + ld;
    assert(t.len() == o8 + 1);
    assert(t[0] == '{');
    assert(t[o2] == ':');
    assert(t[o4] == ',');
    assert(t[o6] == ':');
    assert(t[o8] == '}');
    assert(t.subrange(1, 1 + la) =~= a) by {
        assert forall|j: int| 0 <= j < la implies t.subrange(1, 1 + la)[j] == a[j] by {
            assert(t.subrange(1, 1 + la)[j] == t2[1 + j]);
            assert(u2[1 + j] == a[j]);
        }
    }
    assert(t.subrange(o3, o3 + lb) =~= b) by {
        assert forall|j: int| 0 <= j < lb implies t.subrange(o3, o3 + lb)[j] == b[j] by {
            assert(t.subrange(o3, o3 + lb)[j] == t2[o3 + j]);
            assert(u4[o3 + j] == b[j]);
        }
    }
    assert(t.subrange(o5, o5 + lc) =~= c) by {
        assert forall|j: int| 0 <= j < lc implies t.subrange(o5, o5 + lc)[j] == c[j] by {
            assert(t.subrange(o5, o5 + lc)[j] == t2[o5 + j]);
            assert(u6[o5 + j] == c[j]);
        }
    }
    assert(t.subrange(o7, o7 + ld) =~= d) by {
        assert forall|j: int| 0 <= j < ld implies t.subrange(o7, o7 + ld)[j] == d[j] by {
            assert(t.subrange(o7, o7 + ld)[j] == t2[o7 + j]);
            assert(u8[o7 + j] == d[j]);
        }
    }
    lemma_subrange_at(t, 1, k1);
    lemma_subrange_at(t, o3, v1);
    lemma_subrange_at(t, o5, k2);
    lemma_subrange_at(t, o7, v2);
    assert(parse_pairs_rest(t, o8) == Some((Seq::<(Seq<char>, Seq<char>)>::empty(), o8 + 1)));
    assert(parse_value_for(t, o7, k2) == Some((seq![(k2, v2)], o8 + 1))) by {
        assert(seq![(k2, v2)] + Seq::<(Seq<char>, Seq<char>)>::empty() =~= seq![(k2, v2)]);
    }
    assert(parse_after_key(t, o6, k2) == Some((seq![(k2, v2)], o8 + 1)));
    assert(parse_pair_next(t, o5) == Some((seq![(k2, v2)], o8 + 1)));
    assert(parse_pairs_rest(t, o4) == Some((seq![(k2, v2)], o8 + 1)));
    assert(parse_value_for(t, o3, k1) == Some((seq![(k1, v1), (k2, v2)], o8 + 1))) by {
        assert(seq![(k1, v1)] + seq![(k2, v2)] =~= seq![(k1, v1), (k2, v2)]);
    }
    assert(parse_after_key(t, o2, k1) == Some((seq![(k1, v1), (k2, v2)], o8 + 1)));
    assert(parse_pairs(t, 1) == Some((seq![(k1, v1), (k2, v2)], o8 + 1)));
    assert(ws_from(t, o8 + 1));
    assert(parse_object_from(t, 0) == Some(seq![(k1, v1), (k2, v2)]));
}

// ---------------------------------------------------------------------------
// Executable helpers on characters and strings
// ---------------------------------------------------------------------------

/// The characters of a string slice, in order.
pub fn chars_of(s: &str) -> (r: Vec<char>)
    ensures
        r@ == s@,
{
    let n = s.unicode_len();
    let mut r: Vec<char> = Vec::new();
    let mut i: usize = 0;
    while i < n
        invariant
            i <= n,
            n == s@.len(),
            r@ == s@.take(i as int),
        decreases n - i,
    {
        r.push(s.get_char(i));
        i = i + 1;
        proof {
            assert(r@ =~= s@.take(i as int));
        }
    }
    proof {
        assert(r@ =~= s@);
    }
    r
}

/// The string holding exactly the given characters.
pub fn string_of(v: &Vec<char>) -> (r: String)
    ensures
        r@ == v@,
{
    let mut r = String::new();
    let mut i: usize = 0;
    while i < v.len()
        invariant
            i <= v@.len(),
            r@ == v@.take(i as int),
        decreases v@.len() - i,
    {
        r.push(v[i]);
        i = i + 1;
        proof {
            assert(r@ =~= v@.take(i as int));
        }
    }
    proof {
        assert(r@ =~= v@);
    }
    r
}

/// String slice equality, decided character by character.
pub fn str_eq(a: &str, b: &str) -> (r: bool)
    ensures
        r == (a@ == b@),
{
    let n = a.unicode_len();
    let m = b.unicode_len();
    if n != m {
        return false;
    }
    let mut i: usize = 0;
    while i < n
        invariant
            i <= n,
            n == a@.len(),
            n == b@.len(),
            forall|j: int| 0 <= j < i ==> a@[j] == b@[j],
        decreases n - i,
    {
        if a.get_char(i) != b.get_char(i) {
            return false;
        }
        i = i + 1;
    }
    proof {
        assert(a@ =~= b@);
    }
    true
}

/// Character vector equality.
pub fn chars_eq(a: &Vec<char>, b: &Vec<char>) -> (r: bool)
    ensures
        r == (a@ == b@),
{
    if a.len() != b.len() {
        return false;
    }
    let mut i: usize = 0;
    while i < a.len()
        invariant
            i <= a@.len(),
            a@.len() == b@.len(),
            forall|j: int| 0 <= j < i ==> a@[j] == b@[j],
        decreases a@.len() - i,
    {
        if a[i] != b[i] {
            return false;
        }
        i = i + 1;
    }
    proof {
        assert(a@ =~= b@);
    }
    true
}

/// The write framing: one payload, one newline terminator.
pub fn terminated_line(line: &str) -> (r: String)
    ensures
        r@ == line@.push('\n'),
{
    let mut r = String::from_str(line);
    r.push('\n');
    r
}

// ---------------------------------------------------------------------------
// The executable parser
// ---------------------------------------------------------------------------

fn ws_x(c: char) -> (r: bool)
    ensures
        r == is_ws(c),
{
    c == ' ' || c == '\n' || c == '\r' || c == '\t'
}

fn unescape_x(c: char) -> (r: Option<char>)
    ensures
        r == unescape_char(c),
{
    if c == '"' {
        Some('"')
    } else if c == '\\' {
        Some('\\')
    } else if c == '/' {
        Some('/')
    } else if c == 'n' {
        Some('\n')
    } else if c == 't' {
        Some('\t')
    } else if c == 'r' {
        Some('\r')
    } else if c == 'b' {
        Some('\u{8}')
    } else if c == 'f' {
        Some('\u{c}')
    } else {
        None
    }
}

/// One parsed field of an object.
pub struct JsonField {
    pub key: Vec<char>,
    pub value: Vec<char>,
}

/// The fields of a parsed object, as the spec-level pair sequence.
pub open spec fn fields_view(fs: Seq<JsonField>) -> Seq<(Seq<char>, Seq<char>)> {
    fs.map_values(|f: JsonField| (f.key@, f.value@))
}

fn parse_str_body_at(t: &Vec<char>, i: usize) -> (r: Option<(Vec<char>, usize)>)
    ensures
        match r {
            Some(p) => parse_str_body(t@, i as int) == Some((p.0@, p.1 as int)) && i < p.1 <= t@.len(),
            None => parse_str_body(t@, i as int) is None,
        },
    decreases t@.len() - i,
{
    if i >= t.len() {
        None
    } else if t[i] == '"' {
        Some((Vec::new(), i + 1))
    } else if t[i] == '\\' {
        if i + 1 < t.len() {
            match unescape_x(t[i + 1]) {
                Some(c) => match parse_str_body_at(t, i + 2) {
                    Some(p) => {
                        let (mut s, j) = p;
                        s.insert(0, c);
                        proof {
                            assert(s@ =~= seq![c] + s@.drop_first());
                        }
                        Some((s, j))
                    },
                    None => None,
                },
                None => None,
            }
        } else {
            None
        }
    } else {
        let c = t[i];
        match parse_str_body_at(t, i + 1) {
            Some(p) => {
                let (mut s, j) = p;
                s.insert(0, c);
                proof {
                    assert(s@ =~= seq![c] + s@.drop_first());
                }
                Some((s, j))
            },
            None => None,
        }
    }
}

fn parse_pairs_at(t: &Vec<char>, i: usize) -> (r: Option<(Vec<JsonField>, usize)>)
    ensures
        match r {
            Some(p) => parse_pairs(t@, i as int) == Some((fields_view(p.0@), p.1 as int)),
            None => parse_pairs(t@, i as int) is None,
        },
    decreases t@.len() - i,
{
    if i >= t.len() {
        None
    } else if ws_x(t[i]) {
        parse_pairs_at(t, i + 1)
    } else if t[i] == '}' {
        let r: Vec<JsonField> = Vec::new();
        proof {
            assert(fields_view(r@) =~= Seq::<(Seq<char>, Seq<char>)>::empty());
        }
        Some((r, i + 1))
    } else if t[i] == '"' {
        match parse_str_body_at(t, i + 1) {
            Some(p) => {
                let (k, j) = p;
                if i + 1 < j && j <= t.len() {
                    parse_after_key_at(t, j, k)
                } else {
                    None
                }
            },
            None => None,
        }
    } else {
        None
    }
}

fn parse_after_key_at(t: &Vec<char>, i: usize, key: Vec<char>) -> (r: Option<
    (Vec<JsonField>, usize),
>)
    ensures
        match r {
            Some(p) => parse_after_key(t@, i as int, key@) == Some((fields_view(p.0@), p.1 as int)),
            None => parse_after_key(t@, i as int, key@) is None,
        },
    decreases t@.len() - i,
{
    if i >= t.len() {
        None
    } else if ws_x(t[i]) {
        parse_after_key_at(t, i + 1, key)
    } else if t[i] == ':' {
        parse_value_for_at(t, i + 1, key)
    } else {
        None
    }
}

fn parse_value_for_at(t: &Vec<char>, i: usize, key: Vec<char>) -> (r: Option<
    (Vec<JsonField>, usize),
>)
    ensures
        match r {
            Some(p) => parse_value_for(t@, i as int, key@) == Some((fields_view(p.0@), p.1 as int)),
            None => parse_value_for(t@, i as int, key@) is None,
        },
    decreases t@.len() - i,
{
    if i >= t.len() {
        None
    } else if ws_x(t[i]) {
        parse_value_for_at(t, i + 1, key)
    } else if t[i] == '"' {
        match parse_str_body_at(t, i + 1) {
            Some(p) => {
                let (v, j) = p;
                if i + 1 < j && j <= t.len() {
                    match parse_pairs_rest_at(t, j) {
                        Some(q) => {
                            let (mut ps, e) = q;
                            let ghost old_ps = ps@;
                            ps.insert(0, JsonField { key, value: v });
                            proof {
                                assert(fields_view(ps@) =~= seq![(ps@[0].key@, ps@[0].value@)]
                                    + fields_view(old_ps));
                            }
                            Some((ps, e))
                        },
                        None => None,
                    }
                } else {
                    None
                }
            },
            None => None,
        }
    } else {
        None
    }
}

fn parse_pairs_rest_at(t: &Vec<char>, i: usize) -> (r: Option<(Vec<JsonField>, usize)>)
    ensures
        match r {
            Some(p) => parse_pairs_rest(t@, i as int) == Some((fields_view(p.0@), p.1 as int)),
            None => parse_pairs_rest(t@, i as int) is None,
        },
    decreases t@.len() - i,
{
    if i >= t.len() {
        None
    } else if ws_x(t[i]) {
        parse_pairs_rest_at(t, i + 1)
    } else if t[i] == '}' {
        let r: Vec<JsonField> = Vec::new();
        proof {
            assert(fields_view(r@) =~= Seq::<(Seq<char>, Seq<char>)>::empty());
        }
        Some((r, i + 1))
    } else if t[i] == ',' {
        parse_pair_next_at(t, i + 1)
    } else {
        None
    }
}

fn parse_pair_next_at(t: &Vec<char>, i: usize) -> (r: Option<(Vec<JsonField>, usize)>)
    ensures
        match r {
            Some(p) => parse_pair_next(t@, i as int) == Some((fields_view(p.0@), p.1 as int)),
            None => parse_pair_next(t@, i as int) is None,
        },
    decreases t@.len() - i,
{
    if i >= t.len() {
        None
    } else if ws_x(t[i]) {
        parse_pair_next_at(t, i + 1)
    } else if t[i] == '"' {
        match parse_str_body_at(t, i + 1) {
            Some(p) => {
                let (k, j) = p;
                if i + 1 < j && j <= t.len() {
                    parse_after_key_at(t, j, k)
                } else {
                    None
                }
            },
            None => None,
        }
    } else {
        None
    }
}

fn ws_from_at(t: &Vec<char>, i: usize) -> (r: bool)
    ensures
        r == ws_from(t@, i as int),
    decreases t@.len() - i,
{
    if i >= t.len() {
        true
    } else if ws_x(t[i]) {
        ws_from_at(t, i + 1)
    } else {
        false
    }
}

fn parse_object_from_at(t: &Vec<char>, i: usize) -> (r: Option<Vec<JsonField>>)
    ensures
        match r {
            Some(fs) => parse_object_from(t@, i as int) == Some(fields_view(fs@)),
            None => parse_object_from(t@, i as int) is None,
        },
    decreases t@.len() - i,
{
    if i >= t.len() {
        None
    } else if ws_x(t[i]) {
        parse_object_from_at(t, i + 1)
    } else if t[i] == '{' {
        match parse_pairs_at(t, i + 1) {
            Some(p) => {
                let (fs, j) = p;
                if ws_from_at(t, j) {
                    Some(fs)
                } else {
                    None
                }
            },
            None => None,
        }
    } else {
        None
    }
}

/// Parse one payload: the fields of its object, or `None` when malformed.
pub fn parse_payload_fields(payload: &str) -> (r: Option<Vec<JsonField>>)
    ensures
        match r {
            Some(fs) => parse_payload(payload@) == Some(fields_view(fs@)),
            None => parse_payload(payload@) is None,
        },
{
    let t = chars_of(payload);
    parse_object_from_at(&t, 0)
}

/// Look up the first field with the given key.
fn find_field_from(fs: &Vec<JsonField>, i: usize, key: &Vec<char>) -> (r: Option<usize>)
    requires
        i <= fs@.len(),
    ensures
        match r {
            Some(idx) => i <= idx < fs@.len() && field_first(fields_view(fs@).skip(i as int), key@)
                == Some(fs@[idx as int].value@),
            None => field_first(fields_view(fs@).skip(i as int), key@) is None,
        },
    decreases fs@.len() - i,
{
    proof {
        assert(fields_view(fs@).len() == fs@.len());
    }
    if i >= fs.len() {
        proof {
            assert(fields_view(fs@).skip(i as int) =~= Seq::<(Seq<char>, Seq<char>)>::empty());
        }
        None
    } else {
        proof {
            assert(fields_view(fs@).skip(i as int)[0] == (fs@[i as int].key@, fs@[i as int].value@));
            assert(fields_view(fs@).skip(i as int).drop_first() =~= fields_view(fs@).skip(
                i as int + 1,
            ));
        }
        if chars_eq(&fs[i].key, key) {
            Some(i)
        } else {
            find_field_from(fs, i + 1, key)
        }
    }
}

/// The value of the first field with the given key, or `None`.
pub fn field_value(fs: &Vec<JsonField>, key: &str) -> (r: Option<String>)
    ensures
        match r {
            Some(v) => field_first(fields_view(fs@), key@) == Some(v@),
            None => field_first(fields_view(fs@), key@) is None,
        },
{
    let k = chars_of(key);
    proof {
        assert(fields_view(fs@).skip(0) =~= fields_view(fs@));
    }
    match find_field_from(fs, 0, &k) {
        Some(idx) => Some(string_of(&fs[idx].value)),
        None => None,
    }
}

// ---------------------------------------------------------------------------
// The executable serializer
// ---------------------------------------------------------------------------

/// Splitting a string splits its escaped body.
proof fn lemma_ser_body_snoc(s: Seq<char>, c: char)
    ensures
        ser_str_body(s.push(c)) == ser_str_body(s) + escape_char(c),
    decreases s.len(),
{
    if s.len() == 0 {
        assert(s.push(c)[0] == c);
        assert(s.push(c).drop_first() =~= s);
        assert(ser_str_body(s.push(c)) =~= ser_str_body(s) + escape_char(c));
    } else {
        lemma_ser_body_snoc(s.drop_first(), c);
        assert(s.push(c)[0] == s[0]);
        assert(s.push(c).drop_first() =~= s.drop_first().push(c));
        assert(ser_str_body(s.push(c)) =~= ser_str_body(s) + escape_char(c));
    }
}

fn escape_x(out: &mut Vec<char>, c: char)
    ensures
        final(out)@ == old(out)@ + escape_char(c),
{
    if c == '"' {
        out.push('\\');
        out.push('"');
    } else if c == '\\' {
        out.push('\\');
        out.push('\\');
    } else if c == '\n' {
        out.push('\\');
        out.push('n');
    } else if c == '\t' {
        out.push('\\');
        out.push('t');
    } else if c == '\r' {
        out.push('\\');
        out.push('r');
    } else {
        out.push(c);
    }
    proof {
        assert(out@ =~= old(out)@ + escape_char(c));
    }
}

/// Append one serialized string literal, quotes included.
pub(crate) fn ser_string_into(out: &mut Vec<char>, s: &str)
    ensures
        final(out)@ == old(out)@ + ser_string(s@),
{
    let t = chars_of(s);
    out.push('"');
    let mut i: usize = 0;
    while i < t.len()
        invariant
            i <= t@.len(),
            t@ == s@,
            out@ == old(out)@ + seq!['"'] + ser_str_body(s@.take(i as int)),
        decreases t@.len() - i,
    {
        let ghost prev = s@.take(i as int);
        escape_x(out, t[i]);
        proof {
            lemma_ser_body_snoc(prev, s@[i as int]);
            assert(s@.take(i as int + 1) =~= prev.push(s@[i as int]));
            assert(out@ =~= old(out)@ + seq!['"'] + ser_str_body(s@.take(i as int + 1)));
        }
        i = i + 1;
    }
    out.push('"');
    proof {
        assert(s@.take(s@.len() as int) =~= s@);
        assert(out@ =~= old(out)@ + ser_string(s@));
    }
}

} // verus!
