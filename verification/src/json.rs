//! The library's model of a parsed JSON value.
//!
//! The bridge wire protocol and the on-disk transcripts are line-oriented
//! JSON. Parsing the text is delegated to `serde_json`; everything the
//! logic then does with a parsed value — field lookup, classification,
//! re-encoding — works on this model and is verified.
//!
//! JSON numbers are modelled as unsigned 64-bit integers, which is all the
//! protocols here read; any other number is treated as null.
use vstd::prelude::*;

verus! {

broadcast use vstd::std_specs::vec::axiom_vec_decreases_to_view;

#[derive(Debug, PartialEq, Eq)]
pub enum JsonValue {
    Null,
    Bool(bool),
    Num(u64),
    Str(String),
    Arr(Vec<JsonValue>),
    Obj(Vec<(String, JsonValue)>),
}

/// The mathematical value of a JSON tree.
pub ghost enum JsonModel {
    Null,
    Bool(bool),
    Num(u64),
    Str(Seq<char>),
    Arr(Seq<JsonModel>),
    Obj(Seq<(Seq<char>, JsonModel)>),
}

pub open spec fn jv_model(v: JsonValue) -> JsonModel
    decreases v,
{
    match v {
        JsonValue::Null => JsonModel::Null,
        JsonValue::Bool(b) => JsonModel::Bool(b),
        JsonValue::Num(n) => JsonModel::Num(n),
        JsonValue::Str(s) => JsonModel::Str(s@),
        JsonValue::Arr(items) => JsonModel::Arr(jv_models(items@)),
        JsonValue::Obj(fields) => JsonModel::Obj(jv_fields(fields@)),
    }
}

pub open spec fn jv_models(s: Seq<JsonValue>) -> Seq<JsonModel>
    decreases s,
{
    if s.len() == 0 {
        Seq::empty()
    } else {
        jv_models(s.drop_last()).push(jv_model(s.last()))
    }
}

pub open spec fn jv_fields(s: Seq<(String, JsonValue)>) -> Seq<(Seq<char>, JsonModel)>
    decreases s,
{
    if s.len() == 0 {
        Seq::empty()
    } else {
        jv_fields(s.drop_last()).push((s.last().0@, jv_model(s.last().1)))
    }
}

impl View for JsonValue {
    type V = JsonModel;

    open spec fn view(&self) -> JsonModel {
        jv_model(*self)
    }
}

pub proof fn lemma_jv_models_len(s: Seq<JsonValue>)
    ensures
        jv_models(s).len() == s.len(),
    decreases s,
{
    if s.len() > 0 {
        lemma_jv_models_len(s.drop_last());
    }
}

pub proof fn lemma_jv_models_index(s: Seq<JsonValue>, i: int)
    requires
        0 <= i < s.len(),
    ensures
        jv_models(s).len() == s.len(),
        jv_models(s)[i] == jv_model(s[i]),
    decreases s,
{
    lemma_jv_models_len(s);
    if i < s.len() - 1 {
        lemma_jv_models_index(s.drop_last(), i);
    }
}

pub proof fn lemma_jv_fields_len(s: Seq<(String, JsonValue)>)
    ensures
        jv_fields(s).len() == s.len(),
    decreases s,
{
    if s.len() > 0 {
        lemma_jv_fields_len(s.drop_last());
    }
}

pub proof fn lemma_jv_fields_index(s: Seq<(String, JsonValue)>, i: int)
    requires
        0 <= i < s.len(),
    ensures
        jv_fields(s).len() == s.len(),
        jv_fields(s)[i] == (s[i].0@, jv_model(s[i].1)),
    decreases s,
{
    lemma_jv_fields_len(s);
    if i < s.len() - 1 {
        lemma_jv_fields_index(s.drop_last(), i);
    }
}

/// The value of the first field named `key`, if any.
pub open spec fn obj_get(fields: Seq<(Seq<char>, JsonModel)>, key: Seq<char>) -> Option<JsonModel>
    decreases fields.len(),
{
    if fields.len() == 0 {
        None
    } else if fields[0].0 == key {
        Some(fields[0].1)
    } else {
        obj_get(fields.drop_first(), key)
    }
}

impl JsonModel {
    /// Field lookup on an object, as `serde_json::Value::get` does it:
    /// `None` on non-objects and missing fields.
    pub open spec fn spec_get(self, key: Seq<char>) -> Option<JsonModel> {
        match self {
            JsonModel::Obj(fields) => obj_get(fields, key),
            _ => None,
        }
    }

    pub open spec fn spec_as_str(self) -> Option<Seq<char>> {
        match self {
            JsonModel::Str(s) => Some(s),
            _ => None,
        }
    }

    pub open spec fn spec_as_bool(self) -> Option<bool> {
        match self {
            JsonModel::Bool(b) => Some(b),
            _ => None,
        }
    }

    pub open spec fn spec_as_u64(self) -> Option<u64> {
        match self {
            JsonModel::Num(n) => Some(n),
            _ => None,
        }
    }
}

impl JsonValue {
    pub fn get(&self, key: &str) -> (r: Option<&JsonValue>)
        ensures
            match r {
                Some(f) => self@.spec_get(key@) == Some(f@),
                None => self@.spec_get(key@) is None,
            },
    {
        match self {
            JsonValue::Obj(fields) => {
                let k = key.to_owned();
                let ghost fs = fields@;
                let ghost mf = jv_fields(fs);
                proof {
                    lemma_jv_fields_len(fs);
                    assert(mf.skip(0) =~= mf);
                }
                let mut i: usize = 0;
                while i < fields.len()
                    invariant
                        i <= fs.len(),
                        fs == fields@,
                        mf == jv_fields(fs),
                        mf.len() == fs.len(),
                        *self == JsonValue::Obj(*fields),
                        k@ == key@,
                        obj_get(mf, key@) == obj_get(mf.skip(i as int), key@),
                    decreases fs.len() - i,
                {
                    proof {
                        lemma_jv_fields_index(fs, i as int);
                        assert(mf.skip(i as int)[0] == mf[i as int]);
                    }
                    if fields[i].0 == k {
                        proof {
                            assert(obj_get(mf.skip(i as int), key@) == Some(mf[i as int].1));
                        }
                        return Some(&fields[i].1);
                    }
                    proof {
                        assert(mf.skip(i as int).drop_first() =~= mf.skip(i as int + 1));
                    }
                    i += 1;
                }
                None
            },
            _ => None,
        }
    }

    pub fn as_str(&self) -> (r: Option<&String>)
        ensures
            match r {
                Some(s) => self@.spec_as_str() == Some(s@),
                None => self@.spec_as_str() is None,
            },
    {
        match self {
            JsonValue::Str(s) => Some(s),
            _ => None,
        }
    }

    pub fn as_bool(&self) -> (r: Option<bool>)
        ensures
            r == self@.spec_as_bool(),
    {
        match self {
            JsonValue::Bool(b) => Some(*b),
            _ => None,
        }
    }

    pub fn as_u64(&self) -> (r: Option<u64>)
        ensures
            r == self@.spec_as_u64(),
    {
        match self {
            JsonValue::Num(n) => Some(*n),
            _ => None,
        }
    }

    pub fn as_array(&self) -> (r: Option<&Vec<JsonValue>>)
        ensures
            match r {
                Some(items) => self@ == JsonModel::Arr(jv_models(items@)),
                None => !(self@ is Arr),
            },
    {
        match self {
            JsonValue::Arr(items) => Some(items),
            _ => None,
        }
    }

    pub fn as_object(&self) -> (r: Option<&Vec<(String, JsonValue)>>)
        ensures
            match r {
                Some(fields) => self@ == JsonModel::Obj(jv_fields(fields@)),
                None => !(self@ is Obj),
            },
    {
        match self {
            JsonValue::Obj(fields) => Some(fields),
            _ => None,
        }
    }

    pub fn is_string(&self) -> (r: bool)
        ensures
            r == (self@ is Str),
    {
        match self {
            JsonValue::Str(_) => true,
            _ => false,
        }
    }
}

/// A deep copy of `v`.
pub fn json_clone(v: &JsonValue) -> (r: JsonValue)
    ensures
        r@ == v@,
    decreases *v,
{
    match v {
        JsonValue::Null => JsonValue::Null,
        JsonValue::Bool(b) => JsonValue::Bool(*b),
        JsonValue::Num(n) => JsonValue::Num(*n),
        JsonValue::Str(s) => JsonValue::Str(s.clone()),
        JsonValue::Arr(items) => {
            let ghost vs = items@;
            let mut out: Vec<JsonValue> = Vec::new();
            let mut j: usize = 0;
            proof {
                lemma_jv_models_len(vs);
                assert(jv_models(out@) =~= jv_models(vs).take(0));
            }
            while j < items.len()
                invariant
                    j <= vs.len(),
                    vs == items@,
                    *v == JsonValue::Arr(*items),
                    jv_models(out@) == jv_models(vs).take(j as int),
                    out@.len() == j,
                decreases vs.len() - j,
            {
                proof {
                    assert(v->Arr_0 == *items);
                    assert(decreases_to!(*v => v->Arr_0));
                    assert(decreases_to!(*items => items@));
                    assert(decreases_to!(items@ => vs[j as int]));
                    assert(decreases_to!(*v => vs[j as int]));
                }
                let c = json_clone(&items[j]);
                let ghost out0 = out@;
                out.push(c);
                proof {
                    lemma_jv_models_len(vs);
                    lemma_jv_models_index(vs, j as int);
                    assert(out@.drop_last() =~= out0);
                    assert(jv_models(out@) =~= jv_models(vs).take(j as int + 1));
                }
                j += 1;
            }
            proof {
                lemma_jv_models_len(vs);
                assert(jv_models(vs).take(vs.len() as int) =~= jv_models(vs));
            }
            JsonValue::Arr(out)
        },
        JsonValue::Obj(fields) => {
            let ghost vs = fields@;
            let mut out: Vec<(String, JsonValue)> = Vec::new();
            let mut j: usize = 0;
            proof {
                lemma_jv_fields_len(vs);
                assert(jv_fields(out@) =~= jv_fields(vs).take(0));
            }
            while j < fields.len()
                invariant
                    j <= vs.len(),
                    vs == fields@,
                    *v == JsonValue::Obj(*fields),
                    jv_fields(out@) == jv_fields(vs).take(j as int),
                    out@.len() == j,
                decreases vs.len() - j,
            {
                proof {
                    assert(v->Obj_0 == *fields);
                    assert(decreases_to!(*v => v->Obj_0));
                    assert(decreases_to!(*fields => fields@));
                    assert(decreases_to!(fields@ => vs[j as int]));
                    assert(decreases_to!(vs[j as int] => vs[j as int].1));
                    assert(decreases_to!(*v => vs[j as int].1));
                }
                let k = fields[j].0.clone();
                let cv = json_clone(&fields[j].1);
                let ghost out0 = out@;
                out.push((k, cv));
                proof {
                    lemma_jv_fields_len(vs);
                    lemma_jv_fields_index(vs, j as int);
                    assert(out@.drop_last() =~= out0);
                    assert(jv_fields(out@) =~= jv_fields(vs).take(j as int + 1));
                }
                j += 1;
            }
            proof {
                lemma_jv_fields_len(vs);
                assert(jv_fields(vs).take(vs.len() as int) =~= jv_fields(vs));
            }
            JsonValue::Obj(out)
        },
    }
}

#[verifier::external_type_specification]
#[verifier::external_body]
pub struct ExValue(serde_json::Value);

/// What `serde_json` parses a line of text into, in the library's model:
/// a function of the text alone.
pub uninterp spec fn json_parse(s: Seq<char>) -> Option<JsonModel>;

/// Relies on `serde_json::from_str::<serde_json::Value>`: the parse is a
/// function of the text alone, `None` exactly on text the parser refuses
/// (text that is not one valid JSON value, or a document nested beyond
/// the parser's recursion limit).
#[verifier::external_body]
pub(crate) fn parse_json_line(s: &str) -> (r: Option<JsonValue>)
    ensures
        match r {
            Some(v) => json_parse(s@) == Some(v@),
            None => json_parse(s@) is None,
        },
{
    match serde_json::from_str::<serde_json::Value>(s) {
        Ok(v) => Some(json_from_value(&v)),
        Err(_) => None,
    }
}

/// Relies on the shape of `serde_json::Value`: rebuilds the parsed tree in
/// the library's model, object fields in iteration order, numbers read
/// through `Number::as_u64` (any other number becomes null).
#[verifier::external_body]
fn json_from_value(v: &serde_json::Value) -> (r: JsonValue) {
    match v {
        serde_json::Value::Null => JsonValue::Null,
        serde_json::Value::Bool(b) => JsonValue::Bool(*b),
        serde_json::Value::Number(n) => match n.as_u64() {
            Some(u) => JsonValue::Num(u),
            None => JsonValue::Null,
        },
        serde_json::Value::String(s) => JsonValue::Str(s.clone()),
        serde_json::Value::Array(items) => JsonValue::Arr(
            items.iter().map(|x| json_from_value(x)).collect(),
        ),
        serde_json::Value::Object(fields) => JsonValue::Obj(
            fields.iter().map(|p| ((p.0).clone(), json_from_value(p.1))).collect(),
        ),
    }
}

// ---------------------------------------------------------------------------
// Encoding
// ---------------------------------------------------------------------------

pub open spec fn spec_dec_digit(d: nat) -> char {
    if d == 0 {
        '0'
    } else if d == 1 {
        '1'
    } else if d == 2 {
        '2'
    } else if d == 3 {
        '3'
    } else if d == 4 {
        '4'
    } else if d == 5 {
        '5'
    } else if d == 6 {
        '6'
    } else if d == 7 {
        '7'
    } else if d == 8 {
        '8'
    } else {
        '9'
    }
}

/// The decimal rendering of `n`, without leading zeros.
pub open spec fn spec_dec_str(n: nat) -> Seq<char>
    decreases n,
{
    if n < 10 {
        seq![spec_dec_digit(n)]
    } else {
        spec_dec_str(n / 10).push(spec_dec_digit(n % 10))
    }
}

pub open spec fn spec_hex_digit(d: nat) -> char {
    if d < 10 {
        spec_dec_digit(d)
    } else if d == 10 {
        'a'
    } else if d == 11 {
        'b'
    } else if d == 12 {
        'c'
    } else if d == 13 {
        'd'
    } else if d == 14 {
        'e'
    } else {
        'f'
    }
}

/// How one character stands inside a JSON string literal: quote and
/// backslash get a backslash escape, the common control characters their
/// short escapes, the remaining control characters a `\u00XX` escape, and
/// every other character stands as itself.
pub open spec fn spec_escape_char(c: char) -> Seq<char> {
    if c == '"' {
        seq!['\\', '"']
    } else if c == '\\' {
        seq!['\\', '\\']
    } else if c == '\u{8}' {
        seq!['\\', 'b']
    } else if c == '\t' {
        seq!['\\', 't']
    } else if c == '\n' {
        seq!['\\', 'n']
    } else if c == '\u{c}' {
        seq!['\\', 'f']
    } else if c == '\r' {
        seq!['\\', 'r']
    } else if (c as u32) < 32 {
        seq!['\\', 'u', '0', '0', spec_hex_digit((c as u32 / 16) as nat), spec_hex_digit(
            (c as u32 % 16) as nat,
        )]
    } else {
        seq![c]
    }
}

pub open spec fn spec_escape(s: Seq<char>) -> Seq<char>
    decreases s.len(),
{
    if s.len() == 0 {
        Seq::empty()
    } else {
        spec_escape_char(s[0]) + spec_escape(s.drop_first())
    }
}

pub proof fn lemma_escape_single(c: char)
    ensures
        spec_escape(seq![c]) == spec_escape_char(c),
{
    reveal_with_fuel(spec_escape, 2);
    let s = seq![c];
    assert(s.drop_first() =~= Seq::<char>::empty());
    assert(spec_escape_char(c) + Seq::<char>::empty() =~= spec_escape_char(c));
}

pub proof fn lemma_escape_append(a: Seq<char>, b: Seq<char>)
    ensures
        spec_escape(a + b) == spec_escape(a) + spec_escape(b),
    decreases a.len(),
{
    if a.len() == 0 {
        assert(a + b =~= b);
        assert(spec_escape(a) + spec_escape(b) =~= spec_escape(b));
    } else {
        assert((a + b).drop_first() =~= a.drop_first() + b);
        lemma_escape_append(a.drop_first(), b);
        assert(spec_escape(a + b) =~= spec_escape(a) + spec_escape(b));
    }
}

/// A JSON string literal: the escaped text between double quotes.
pub open spec fn spec_quoted(s: Seq<char>) -> Seq<char> {
    seq!['"'] + spec_escape(s) + seq!['"']
}

/// The compact JSON rendering of a value, as `serde_json` writes it.
pub open spec fn spec_encode_json(m: JsonModel) -> Seq<char>
    decreases m,
{
    match m {
        JsonModel::Null => seq!['n', 'u', 'l', 'l'],
        JsonModel::Bool(b) => if b {
            seq!['t', 'r', 'u', 'e']
        } else {
            seq!['f', 'a', 'l', 's', 'e']
        },
        JsonModel::Num(n) => spec_dec_str(n as nat),
        JsonModel::Str(s) => spec_quoted(s),
        JsonModel::Arr(items) => seq!['['] + spec_encode_list(items) + seq![']'],
        JsonModel::Obj(fields) => seq!['{'] + spec_encode_obj(fields) + seq!['}'],
    }
}

pub open spec fn spec_encode_list(s: Seq<JsonModel>) -> Seq<char>
    decreases s,
{
    if s.len() == 0 {
        Seq::empty()
    } else if s.len() == 1 {
        spec_encode_json(s[0])
    } else {
        spec_encode_list(s.drop_last()) + seq![','] + spec_encode_json(s.last())
    }
}

pub open spec fn spec_encode_obj(s: Seq<(Seq<char>, JsonModel)>) -> Seq<char>
    decreases s,
{
    if s.len() == 0 {
        Seq::empty()
    } else if s.len() == 1 {
        spec_quoted(s[0].0) + seq![':'] + spec_encode_json(s[0].1)
    } else {
        spec_encode_obj(s.drop_last()) + seq![','] + spec_quoted(s.last().0) + seq![':']
            + spec_encode_json(s.last().1)
    }
}

fn dec_digit_char(d: u64) -> (r: char)
    requires
        d < 10,
    ensures
        r == spec_dec_digit(d as nat),
{
    if d == 0 {
        '0'
    } else if d == 1 {
        '1'
    } else if d == 2 {
        '2'
    } else if d == 3 {
        '3'
    } else if d == 4 {
        '4'
    } else if d == 5 {
        '5'
    } else if d == 6 {
        '6'
    } else if d == 7 {
        '7'
    } else if d == 8 {
        '8'
    } else {
        '9'
    }
}

fn hex_digit_char(d: u32) -> (r: char)
    requires
        d < 16,
    ensures
        r == spec_hex_digit(d as nat),
{
    if d < 10 {
        dec_digit_char(d as u64)
    } else if d == 10 {
        'a'
    } else if d == 11 {
        'b'
    } else if d == 12 {
        'c'
    } else if d == 13 {
        'd'
    } else if d == 14 {
        'e'
    } else {
        'f'
    }
}

/// Append the decimal rendering of `n`.
pub fn push_dec(n: u64, out: &mut Vec<char>)
    ensures
        final(out)@ == old(out)@ + spec_dec_str(n as nat),
    decreases n,
{
    if n < 10 {
        out.push(dec_digit_char(n));
        assert(out@ =~= old(out)@ + spec_dec_str(n as nat));
    } else {
        push_dec(n / 10, out);
        out.push(dec_digit_char(n % 10));
        assert(out@ =~= old(out)@ + spec_dec_str(n as nat));
    }
}

/// Append one character in its JSON string-literal form.
fn push_escaped_char(c: char, out: &mut Vec<char>)
    ensures
        final(out)@ == old(out)@ + spec_escape_char(c),
{
    if c == '"' {
        out.push('\\');
        out.push('"');
    } else if c == '\\' {
        out.push('\\');
        out.push('\\');
    } else if c == '\u{8}' {
        out.push('\\');
        out.push('b');
    } else if c == '\t' {
        out.push('\\');
        out.push('t');
    } else if c == '\n' {
        out.push('\\');
        out.push('n');
    } else if c == '\u{c}' {
        out.push('\\');
        out.push('f');
    } else if c == '\r' {
        out.push('\\');
        out.push('r');
    } else if (c as u32) < 32 {
        let u = c as u32;
        out.push('\\');
        out.push('u');
        out.push('0');
        out.push('0');
        out.push(hex_digit_char(u / 16));
        out.push(hex_digit_char(u % 16));
    } else {
        out.push(c);
    }
    assert(out@ =~= old(out)@ + spec_escape_char(c));
}

/// Append the JSON string literal for `s`: quotes around the escaped text.
pub fn push_quoted(s: &str, out: &mut Vec<char>)
    ensures
        final(out)@ == old(out)@ + spec_quoted(s@),
{
    let chars = crate::text::str_chars(s);
    let ghost cs = chars@;
    out.push('"');
    let ghost base = out@;
    let mut i: usize = 0;
    proof {
        assert(cs.take(0) =~= Seq::<char>::empty());
        assert(base + spec_escape(cs.take(0)) =~= base);
    }
    while i < chars.len()
        invariant
            i <= cs.len(),
            cs == chars@,
            out@ == base + spec_escape(cs.take(i as int)),
        decreases cs.len() - i,
    {
        push_escaped_char(chars[i], out);
        proof {
            assert(cs.take(i as int) + seq![cs[i as int]] =~= cs.take(i as int + 1));
            lemma_escape_append(cs.take(i as int), seq![cs[i as int]]);
            lemma_escape_single(cs[i as int]);
            assert(out@ =~= base + spec_escape(cs.take(i as int + 1)));
        }
        i += 1;
    }
    out.push('"');
    proof {
        assert(cs.take(cs.len() as int) =~= cs);
        assert(cs == s@);
        assert(out@ =~= old(out)@ + spec_quoted(s@));
    }
}

/// Append the compact JSON rendering of `v`.
pub fn push_json(v: &JsonValue, out: &mut Vec<char>)
    ensures
        final(out)@ == old(out)@ + spec_encode_json(v@),
    decreases *v,
{
    match v {
        JsonValue::Null => {
            out.push('n');
            out.push('u');
            out.push('l');
            out.push('l');
            assert(out@ =~= old(out)@ + spec_encode_json(v@));
        },
        JsonValue::Bool(b) => {
            if *b {
                out.push('t');
                out.push('r');
                out.push('u');
                out.push('e');
            } else {
                out.push('f');
                out.push('a');
                out.push('l');
                out.push('s');
                out.push('e');
            }
            assert(out@ =~= old(out)@ + spec_encode_json(v@));
        },
        JsonValue::Num(n) => {
            push_dec(*n, out);
        },
        JsonValue::Str(s) => {
            push_quoted(s.as_str(), out);
            assert(out@ =~= old(out)@ + spec_encode_json(v@));
        },
        JsonValue::Arr(items) => {
            let ghost vs = items@;
            let ghost ms = jv_models(vs);
            out.push('[');
            let ghost base = out@;
            proof {
                lemma_jv_models_len(vs);
                assert(ms.take(0) =~= Seq::<JsonModel>::empty());
                assert(base + spec_encode_list(ms.take(0)) =~= base);
            }
            let mut j: usize = 0;
            while j < items.len()
                invariant
                    j <= vs.len(),
                    vs == items@,
                    ms == jv_models(vs),
                    ms.len() == vs.len(),
                    *v == JsonValue::Arr(*items),
                    out@ == base + spec_encode_list(ms.take(j as int)),
                decreases vs.len() - j,
            {
                if j > 0 {
                    out.push(',');
                }
                proof {
                    assert(v->Arr_0 == *items);
                    assert(decreases_to!(*v => v->Arr_0));
                    assert(decreases_to!(*items => items@));
                    assert(decreases_to!(items@ => vs[j as int]));
                    assert(decreases_to!(*v => vs[j as int]));
                }
                push_json(&items[j], out);
                proof {
                    lemma_jv_models_index(vs, j as int);
                    assert(ms.take(j as int + 1).drop_last() =~= ms.take(j as int));
                    assert(ms.take(j as int + 1).last() == ms[j as int]);
                    assert(out@ =~= base + spec_encode_list(ms.take(j as int + 1)));
                }
                j += 1;
            }
            out.push(']');
            proof {
                assert(ms.take(ms.len() as int) =~= ms);
                assert(out@ =~= old(out)@ + spec_encode_json(v@));
            }
        },
        JsonValue::Obj(fields) => {
            let ghost vs = fields@;
            let ghost ms = jv_fields(vs);
            out.push('{');
            let ghost base = out@;
            proof {
                lemma_jv_fields_len(vs);
                assert(ms.take(0) =~= Seq::<(Seq<char>, JsonModel)>::empty());
                assert(base + spec_encode_obj(ms.take(0)) =~= base);
            }
            let mut j: usize = 0;
            while j < fields.len()
                invariant
                    j <= vs.len(),
                    vs == fields@,
                    ms == jv_fields(vs),
                    ms.len() == vs.len(),
                    *v == JsonValue::Obj(*fields),
                    out@ == base + spec_encode_obj(ms.take(j as int)),
                decreases vs.len() - j,
            {
                if j > 0 {
                    out.push(',');
                }
                push_quoted(fields[j].0.as_str(), out);
                out.push(':');
                proof {
                    assert(v->Obj_0 == *fields);
                    assert(decreases_to!(*v => v->Obj_0));
                    assert(decreases_to!(*fields => fields@));
                    assert(decreases_to!(fields@ => vs[j as int]));
                    assert(decreases_to!(vs[j as int] => vs[j as int].1));
                    assert(decreases_to!(*v => vs[j as int].1));
                }
                push_json(&fields[j].1, out);
                proof {
                    lemma_jv_fields_index(vs, j as int);
                    assert(ms.take(j as int + 1).drop_last() =~= ms.take(j as int));
                    assert(ms.take(j as int + 1).last() == ms[j as int]);
                    assert(out@ =~= base + spec_encode_obj(ms.take(j as int + 1)));
                }
                j += 1;
            }
            out.push('}');
            proof {
                assert(ms.take(ms.len() as int) =~= ms);
                assert(out@ =~= old(out)@ + spec_encode_json(v@));
            }
        },
    }
}

/// The compact JSON rendering of `v` as a string.
pub fn json_to_string(v: &JsonValue) -> (r: String)
    ensures
        r@ == spec_encode_json(v@),
{
    let mut out: Vec<char> = Vec::new();
    push_json(v, &mut out);
    crate::text::chars_to_string(&out)
}

} // verus!
