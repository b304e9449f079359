//! The JSON value model that schemas are parsed from and instance data is
//! validated against.
//!
//! Numbers are kept exact: integers in the `i64` range, larger non-negative
//! integers, and every other number as its decimal rendering. Objects are
//! ordered lists of key/value entries; a lookup takes the first entry with a
//! matching key.
use vstd::prelude::*;

use serde_json::Value as RawValue;

verus! {

/// Mathematical model of one JSON number.
pub enum Jn {
    Int(int),
    UInt(int),
    Dec(Seq<char>),
}

/// Mathematical model of one JSON value.
pub enum Jv {
    Null,
    Bool(bool),
    Num(Jn),
    Str(Seq<char>),
    Arr(Seq<Jv>),
    Obj(Seq<(Seq<char>, Jv)>),
}

/// One JSON number, kept without floating point: integers in the `i64`
/// range, larger non-negative integers as `u64`, and all other numbers as
/// their decimal rendering.
#[derive(Debug, PartialEq)]
pub enum JsonNumber {
    Int(i64),
    UInt(u64),
    Dec(String),
}

/// One JSON value.
#[derive(Debug, PartialEq)]
pub enum JsonValue {
    Null,
    Bool(bool),
    Number(JsonNumber),
    Str(String),
    Array(Vec<JsonValue>),
    Object(Vec<(String, JsonValue)>),
}

impl View for JsonNumber {
    type V = Jn;

    open spec fn view(&self) -> Jn {
        match self {
            JsonNumber::Int(i) => Jn::Int(*i as int),
            JsonNumber::UInt(u) => Jn::UInt(*u as int),
            JsonNumber::Dec(s) => Jn::Dec(s@),
        }
    }
}

impl View for JsonValue {
    type V = Jv;

    open spec fn view(&self) -> Jv
        decreases self,
    {
        match self {
            JsonValue::Null => Jv::Null,
            JsonValue::Bool(b) => Jv::Bool(*b),
            JsonValue::Number(n) => Jv::Num(n@),
            JsonValue::Str(s) => Jv::Str(s@),
            JsonValue::Array(xs) => Jv::Arr(arr_elems(xs@)),
            JsonValue::Object(es) => Jv::Obj(entries_view(es@)),
        }
    }
}

impl DeepView for JsonNumber {
    type V = Jn;

    open spec fn deep_view(&self) -> Jn {
        self.view()
    }
}

impl DeepView for JsonValue {
    type V = Jv;

    open spec fn deep_view(&self) -> Jv {
        self.view()
    }
}

/// Model of an array's elements.
pub open spec fn arr_elems(xs: Seq<JsonValue>) -> Seq<Jv>
    decreases xs,
{
    Seq::new(
        xs.len(),
        |i: int|
            if 0 <= i < xs.len() {
                xs[i]@
            } else {
                Jv::Null
            },
    )
}

/// The model of an object's entry list.
pub open spec fn entries_view(es: Seq<(String, JsonValue)>) -> Seq<(Seq<char>, Jv)>
    decreases es,
{
    Seq::new(
        es.len(),
        |i: int|
            if 0 <= i < es.len() {
                (es[i].0@, es[i].1@)
            } else {
                (Seq::empty(), Jv::Null)
            },
    )
}

/// Index of the first entry with the given key, or `-1` when absent.
pub open spec fn spec_lookup_idx<T>(entries: Seq<(Seq<char>, T)>, key: Seq<char>) -> int
    decreases entries.len(),
{
    if entries.len() == 0 {
        -1
    } else if entries[0].0 == key {
        0
    } else {
        let r = spec_lookup_idx(entries.skip(1), key);
        if r < 0 {
            -1
        } else {
            r + 1
        }
    }
}

/// A found index is in bounds, names the key, and is the first of its kind.
pub proof fn lemma_lookup_idx<T>(entries: Seq<(Seq<char>, T)>, key: Seq<char>)
    ensures
        spec_lookup_idx(entries, key) >= 0 ==> 0 <= spec_lookup_idx(entries, key) < entries.len()
            && entries[spec_lookup_idx(entries, key)].0 == key,
        spec_lookup_idx(entries, key) >= 0 ==> forall|j: int|
            0 <= j < spec_lookup_idx(entries, key) ==> entries[j].0 != key,
        spec_lookup_idx(entries, key) < 0 ==> forall|j: int|
            0 <= j < entries.len() ==> entries[j].0 != key,
    decreases entries.len(),
{
    if entries.len() > 0 && entries[0].0 != key {
        lemma_lookup_idx(entries.skip(1), key);
        let r = spec_lookup_idx(entries, key);
        if r >= 0 {
            assert forall|j: int| 0 <= j < r implies entries[j].0 != key by {
                if j > 0 {
                    assert(entries[j] == entries.skip(1)[j - 1]);
                }
            }
        } else {
            assert forall|j: int| 0 <= j < entries.len() implies entries[j].0 != key by {
                if j > 0 {
                    assert(entries[j] == entries.skip(1)[j - 1]);
                }
            }
        }
    }
}

/// A key that no entry carries is not found.
pub proof fn lemma_idx_none<T>(entries: Seq<(Seq<char>, T)>, key: Seq<char>)
    requires
        forall|j: int| 0 <= j < entries.len() ==> entries[j].0 != key,
    ensures
        spec_lookup_idx(entries, key) == -1,
    decreases entries.len(),
{
    if entries.len() > 0 {
        lemma_idx_none(entries.skip(1), key);
    }
}

/// The first position carrying the key is what the lookup finds.
pub proof fn lemma_idx_at<T>(entries: Seq<(Seq<char>, T)>, key: Seq<char>, i: int)
    requires
        0 <= i < entries.len(),
        entries[i].0 == key,
        forall|j: int| 0 <= j < i ==> entries[j].0 != key,
    ensures
        spec_lookup_idx(entries, key) == i,
    decreases i,
{
    if i > 0 {
        lemma_idx_at(entries.skip(1), key, i - 1);
    }
}

/// From an entry list to the value of one of its entries: the walk gets
/// smaller.
pub proof fn lemma_entry_decreases<T>(es: Seq<(Seq<char>, T)>, i: int)
    requires
        0 <= i < es.len(),
    ensures
        decreases_to!(es => es[i].1),
{
    assert(decreases_to!(es => es[i]));
    assert(decreases_to!(es[i] => es[i].1));
}


/// Looking a key up in a joined entry list: when the front part lacks the
/// key, the back part decides.
pub proof fn lemma_idx_concat_right<T>(a: Seq<(Seq<char>, T)>, b: Seq<(Seq<char>, T)>, key: Seq<char>)
    requires
        forall|j: int| 0 <= j < a.len() ==> a[j].0 != key,
    ensures
        spec_lookup_idx(b, key) >= 0 ==> spec_lookup_idx(a + b, key) == a.len()
            + spec_lookup_idx(b, key) && (a + b)[spec_lookup_idx(a + b, key)] == b[spec_lookup_idx(
            b,
            key,
        )],
        spec_lookup_idx(b, key) < 0 ==> spec_lookup_idx(a + b, key) == -1,
    decreases a.len(),
{
    if a.len() == 0 {
        assert(a + b =~= b);
    } else {
        lemma_idx_concat_right(a.subrange(1, a.len() as int), b, key);
        assert((a + b).skip(1) =~= a.subrange(1, a.len() as int) + b);
        lemma_lookup_idx(b, key);
    }
}

/// Looking a key up in a joined entry list: a hit in the front part wins.
pub proof fn lemma_idx_concat_left<T>(a: Seq<(Seq<char>, T)>, b: Seq<(Seq<char>, T)>, key: Seq<char>)
    requires
        spec_lookup_idx(a, key) >= 0,
    ensures
        spec_lookup_idx(a + b, key) == spec_lookup_idx(a, key),
        (a + b)[spec_lookup_idx(a, key)] == a[spec_lookup_idx(a, key)],
    decreases a.len(),
{
    lemma_lookup_idx(a, key);
    if a.len() > 0 && a[0].0 != key {
        lemma_idx_concat_left(a.subrange(1, a.len() as int), b, key);
        assert((a + b).skip(1) =~= a.subrange(1, a.len() as int) + b);
    }
}

/// First entry with the given key, if any.
pub open spec fn spec_lookup(entries: Seq<(Seq<char>, Jv)>, key: Seq<char>) -> Option<Jv> {
    let i = spec_lookup_idx(entries, key);
    if i >= 0 {
        Some(entries[i].1)
    } else {
        None
    }
}


impl Clone for JsonNumber {
    /// A clone carries the same model.
    fn clone(&self) -> (res: Self)
        ensures
            res@ == self@,
    {
        match self {
            JsonNumber::Int(i) => JsonNumber::Int(*i),
            JsonNumber::UInt(u) => JsonNumber::UInt(*u),
            JsonNumber::Dec(s) => JsonNumber::Dec(s.clone()),
        }
    }
}

impl Clone for JsonValue {
    /// A clone carries the same model.
    fn clone(&self) -> (res: Self)
        ensures
            res@ == self@,
        decreases *self,
    {
        match self {
            JsonValue::Null => JsonValue::Null,
            JsonValue::Bool(b) => JsonValue::Bool(*b),
            JsonValue::Number(n) => JsonValue::Number(n.clone()),
            JsonValue::Str(s) => JsonValue::Str(s.clone()),
            JsonValue::Array(xs) => {
                let mut out: Vec<JsonValue> = Vec::new();
                let mut i: usize = 0;
                while i < xs.len()
                    invariant
                        0 <= i <= xs.len(),
                        *self == JsonValue::Array(*xs),
                        out@.len() == i as int,
                        forall|j: int| 0 <= j < i ==> out@[j]@ == xs@[j]@,
                    decreases xs.len() - i,
                {
                    proof {
                        assert(decreases_to!(*self => self->Array_0));
                        assert(decreases_to!(*xs => xs@[i as int]));
                        assert(decreases_to!(*self => xs@[i as int]));
                    }
                    let c = xs[i].clone();
                    out.push(c);
                    i = i + 1;
                }
                let res = JsonValue::Array(out);
                proof {
                    assert(res@ matches Jv::Arr(s) && s =~= self@->Arr_0);
                }
                res
            },
            JsonValue::Object(es) => {
                let mut out: Vec<(String, JsonValue)> = Vec::new();
                let mut i: usize = 0;
                while i < es.len()
                    invariant
                        0 <= i <= es.len(),
                        *self == JsonValue::Object(*es),
                        out@.len() == i as int,
                        forall|j: int|
                            0 <= j < i ==> out@[j].0@ == es@[j].0@ && out@[j].1@ == es@[j].1@,
                    decreases es.len() - i,
                {
                    proof {
                        assert(decreases_to!(*self => self->Object_0));
                        assert(decreases_to!(*es => es@[i as int]));
                        assert(decreases_to!(es@[i as int] => es@[i as int].1));
                        assert(decreases_to!(*self => es@[i as int].1));
                    }
                    let k = es[i].0.clone();
                    let v = es[i].1.clone();
                    out.push((k, v));
                    i = i + 1;
                }
                let res = JsonValue::Object(out);
                proof {
                    assert(res@ matches Jv::Obj(s) && s =~= self@->Obj_0);
                }
                res
            },
        }
    }
}

impl JsonNumber {
    /// Whether the number is an integer: it carries no decimal rendering.
    pub fn is_integer(&self) -> (r: bool)
        ensures
            r == (self@ is Int || self@ is UInt),
    {
        match self {
            JsonNumber::Int(_) => true,
            JsonNumber::UInt(_) => true,
            JsonNumber::Dec(_) => false,
        }
    }
}

/// The decimal rendering of one digit.
pub open spec fn spec_digit(d: int) -> Seq<char> {
    if d == 0 {
        "0"@
    } else if d == 1 {
        "1"@
    } else if d == 2 {
        "2"@
    } else if d == 3 {
        "3"@
    } else if d == 4 {
        "4"@
    } else if d == 5 {
        "5"@
    } else if d == 6 {
        "6"@
    } else if d == 7 {
        "7"@
    } else if d == 8 {
        "8"@
    } else {
        "9"@
    }
}

/// The decimal rendering of a non-negative integer.
pub open spec fn spec_udigits(n: int) -> Seq<char>
    decreases n,
{
    if n < 10 {
        spec_digit(n)
    } else {
        spec_udigits(n / 10) + spec_digit(n % 10)
    }
}

/// The decimal rendering of an integer, with a sign when negative.
pub open spec fn spec_idigits(n: int) -> Seq<char> {
    if n >= 0 {
        spec_udigits(n)
    } else {
        "-"@ + spec_udigits(-n)
    }
}

fn digit_string(d: u64) -> (r: &'static str)
    requires
        d < 10,
    ensures
        r@ == spec_digit(d as int),
{
    match d {
        0 => "0",
        1 => "1",
        2 => "2",
        3 => "3",
        4 => "4",
        5 => "5",
        6 => "6",
        7 => "7",
        8 => "8",
        _ => "9",
    }
}

/// Renders a `u64` in decimal.
pub fn udigits(n: u64) -> (r: String)
    ensures
        r@ == spec_udigits(n as int),
    decreases n,
{
    if n < 10 {
        String::from_str(digit_string(n))
    } else {
        let mut s = udigits(n / 10);
        s.append(digit_string(n % 10));
        s
    }
}

/// Renders an `i64` in decimal.
pub fn idigits(n: i64) -> (r: String)
    ensures
        r@ == spec_idigits(n as int),
{
    if n >= 0 {
        udigits(n as u64)
    } else {
        // magnitude of n, computed without overflowing at i64::MIN
        let m: u64 = ((-(n + 1)) as u64) + 1;
        let mut s = String::from_str("-");
        s.append(udigits(m).as_str());
        s
    }
}

/// How one character appears inside a quoted rendering.
pub open spec fn spec_escape_char(c: char) -> Seq<char> {
    if c == '"' {
        "\\\""@
    } else if c == '\\' {
        "\\\\"@
    } else if c == '\n' {
        "\\n"@
    } else if c == '\r' {
        "\\r"@
    } else if c == '\t' {
        "\\t"@
    } else {
        seq![c]
    }
}

/// A string's characters, escaped for a quoted rendering.
pub open spec fn spec_escape(s: Seq<char>) -> Seq<char>
    decreases s.len(),
{
    if s.len() == 0 {
        Seq::empty()
    } else {
        spec_escape_char(s[0]) + spec_escape(s.subrange(1, s.len() as int))
    }
}

proof fn lemma_escape_push(s: Seq<char>, c: char)
    ensures
        spec_escape(s.push(c)) == spec_escape(s) + spec_escape_char(c),
    decreases s.len(),
{
    if s.len() == 0 {
        let t = s.push(c);
        assert(t.len() == 1);
        assert(t[0] == c);
        assert(t.subrange(1, 1) =~= Seq::<char>::empty());
        assert(spec_escape(Seq::<char>::empty()) =~= Seq::<char>::empty());
        assert(spec_escape(t) == spec_escape_char(t[0]) + spec_escape(t.subrange(1, 1)));
        assert(spec_escape(t) =~= spec_escape_char(c));
        assert(spec_escape(s) + spec_escape_char(c) =~= spec_escape_char(c));
    } else {
        let t = s.push(c);
        assert(t.subrange(1, t.len() as int) =~= s.subrange(1, s.len() as int).push(c));
        lemma_escape_push(s.subrange(1, s.len() as int), c);
        assert(spec_escape(t) =~= spec_escape(s) + spec_escape_char(c));
    }
}

/// Escapes a string for a quoted rendering.
pub fn escape_string(s: &str) -> (r: String)
    ensures
        r@ == spec_escape(s@),
{
    let n = s.unicode_len();
    let mut out = String::new();
    let mut i: usize = 0;
    while i < n
        invariant
            0 <= i <= n,
            n == s@.len(),
            out@ == spec_escape(s@.take(i as int)),
        decreases n - i,
    {
        let c = s.get_char(i);
        if c == '"' {
            out.append("\\\"");
        } else if c == '\\' {
            out.append("\\\\");
        } else if c == '\n' {
            out.append("\\n");
        } else if c == '\r' {
            out.append("\\r");
        } else if c == '\t' {
            out.append("\\t");
        } else {
            let piece = s.substring_char(i, i + 1);
            proof {
                assert(piece@ =~= seq![s@[i as int]]);
            }
            out.append(piece);
        }
        proof {
            lemma_escape_push(s@.take(i as int), s@[i as int]);
            assert(s@.take(i as int).push(s@[i as int]) =~= s@.take(i as int + 1));
        }
        i = i + 1;
    }
    proof {
        assert(s@.take(n as int) =~= s@);
    }
    out
}

/// The rendering of one JSON number, as it appears in mismatch reports.
pub open spec fn spec_render_num(n: Jn) -> Seq<char> {
    match n {
        Jn::Int(i) => spec_idigits(i),
        Jn::UInt(u) => spec_udigits(u),
        Jn::Dec(s) => s,
    }
}

/// The rendering of one JSON value, as it appears in mismatch reports.
pub open spec fn spec_render(v: Jv) -> Seq<char>
    decreases v,
{
    match v {
        Jv::Null => "Null"@,
        Jv::Bool(b) => if b {
            "Bool(true)"@
        } else {
            "Bool(false)"@
        },
        Jv::Num(n) => "Number("@ + spec_render_num(n) + ")"@,
        Jv::Str(s) => "String(\""@ + spec_escape(s) + "\")"@,
        Jv::Arr(xs) => "Array ["@ + spec_render_list(xs) + "]"@,
        Jv::Obj(es) => "Object {"@ + spec_render_entries(es) + "}"@,
    }
}

/// The comma-separated renderings of array elements.
pub open spec fn spec_render_list(xs: Seq<Jv>) -> Seq<char>
    decreases xs,
{
    if xs.len() == 0 {
        Seq::empty()
    } else if xs.len() == 1 {
        spec_render(xs[0])
    } else {
        spec_render(xs[0]) + ", "@ + spec_render_list(xs.subrange(1, xs.len() as int))
    }
}

/// The rendering of one object entry.
pub open spec fn spec_render_entry(e: (Seq<char>, Jv)) -> Seq<char>
    decreases e,
{
    "\""@ + spec_escape(e.0) + "\": "@ + spec_render(e.1)
}

/// The comma-separated renderings of object entries.
pub open spec fn spec_render_entries(es: Seq<(Seq<char>, Jv)>) -> Seq<char>
    decreases es,
{
    if es.len() == 0 {
        Seq::empty()
    } else if es.len() == 1 {
        spec_render_entry(es[0])
    } else {
        spec_render_entry(es[0]) + ", "@ + spec_render_entries(es.subrange(1, es.len() as int))
    }
}

/// Renders a JSON value the way mismatch reports show it.
pub fn render_value(v: &JsonValue) -> (r: String)
    ensures
        r@ == spec_render(v@),
    decreases *v, 0int,
{
    match v {
        JsonValue::Null => String::from_str("Null"),
        JsonValue::Bool(b) => {
            if *b {
                String::from_str("Bool(true)")
            } else {
                String::from_str("Bool(false)")
            }
        },
        JsonValue::Number(n) => {
            let mut s = String::from_str("Number(");
            let t = match n {
                JsonNumber::Int(i) => idigits(*i),
                JsonNumber::UInt(u) => udigits(*u),
                JsonNumber::Dec(d) => d.clone(),
            };
            s.append(t.as_str());
            s.append(")");
            s
        },
        JsonValue::Str(st) => {
            let mut s = String::from_str("String(\"");
            s.append(escape_string(st.as_str()).as_str());
            s.append("\")");
            s
        },
        JsonValue::Array(xs) => {
            let mut s = String::from_str("Array [");
            s.append(render_list_from(xs, 0).as_str());
            s.append("]");
            proof {
                assert(v@->Arr_0 =~= v@->Arr_0.subrange(0, v@->Arr_0.len() as int));
            }
            s
        },
        JsonValue::Object(es) => {
            let mut s = String::from_str("Object {");
            s.append(render_entries_from(es, 0).as_str());
            s.append("}");
            proof {
                assert(v@->Obj_0 =~= v@->Obj_0.subrange(0, v@->Obj_0.len() as int));
            }
            s
        },
    }
}

fn render_list_from(xs: &Vec<JsonValue>, i: usize) -> (r: String)
    requires
        i <= xs@.len(),
    ensures
        r@ == spec_render_list(arr_elems(xs@).subrange(i as int, xs@.len() as int)),
    decreases *xs, xs@.len() - i,
{
    let ghost tail = arr_elems(xs@).subrange(i as int, xs@.len() as int);
    if i == xs.len() {
        proof {
            assert(tail.len() == 0);
        }
        String::new()
    } else {
        proof {
            assert(decreases_to!(*xs => xs@[i as int]));
            assert(tail[0] == xs@[i as int]@);
        }
        let mut s = render_value(&xs[i]);
        if i + 1 < xs.len() {
            s.append(", ");
            s.append(render_list_from(xs, i + 1).as_str());
            proof {
                assert(tail.subrange(1, tail.len() as int) =~= arr_elems(xs@).subrange(
                    i as int + 1,
                    xs@.len() as int,
                ));
            }
        } else {
            proof {
                assert(tail.len() == 1);
            }
        }
        s
    }
}

fn render_entries_from(es: &Vec<(String, JsonValue)>, i: usize) -> (r: String)
    requires
        i <= es@.len(),
    ensures
        r@ == spec_render_entries(entries_view(es@).subrange(i as int, es@.len() as int)),
    decreases *es, es@.len() - i,
{
    let ghost tail = entries_view(es@).subrange(i as int, es@.len() as int);
    if i == es.len() {
        proof {
            assert(tail.len() == 0);
        }
        String::new()
    } else {
        proof {
            assert(decreases_to!(*es => es@[i as int]));
            assert(decreases_to!(es@[i as int] => es@[i as int].1));
            assert(tail[0] == (es@[i as int].0@, es@[i as int].1@));
        }
        let mut s = String::from_str("\"");
        s.append(escape_string(es[i].0.as_str()).as_str());
        s.append("\": ");
        s.append(render_value(&es[i].1).as_str());
        if i + 1 < es.len() {
            s.append(", ");
            s.append(render_entries_from(es, i + 1).as_str());
            proof {
                assert(tail.subrange(1, tail.len() as int) =~= entries_view(es@).subrange(
                    i as int + 1,
                    es@.len() as int,
                ));
                assert(tail.len() >= 2);
                assert(spec_render_entries(tail) == spec_render_entry(tail[0]) + ", "@
                    + spec_render_entries(tail.subrange(1, tail.len() as int)));
                assert(spec_render_entry(tail[0]) == "\""@ + spec_escape(es@[i as int].0@)
                    + "\": "@ + spec_render(es@[i as int].1@));
                assert(s@ =~= spec_render_entries(tail));
            }
        } else {
            proof {
                assert(tail.len() == 1);
                assert(spec_render_entries(tail) == spec_render_entry(tail[0]));
                assert(spec_render_entry(tail[0]) == "\""@ + spec_escape(es@[i as int].0@)
                    + "\": "@ + spec_render(es@[i as int].1@));
                assert(s@ =~= spec_render_entries(tail));
            }
        }
        proof {
            assert(s@ =~= spec_render_entries(tail));
        }
        s
    }
}

/// Declares `serde_json::Value` so the decoding wrappers can speak of it.
#[verifier::external_type_specification]
#[verifier::external_body]
pub struct ExSerdeValue(RawValue);

/// What JSON text decodes to, or nothing when the text is not JSON. What
/// `serde_json`'s parser decides; the outcome depends on the text alone.
pub uninterp spec fn json_decode(s: Seq<char>) -> Option<Jv>;

/// Relies on `serde_json::Value`: carries a decoded value over into the
/// library's form, variant by variant. Numbers stay exact: the `i64` or
/// `u64` value when the number is one, else the decimal text that
/// `serde_json` prints for it.
#[verifier::external_body]
fn from_serde_value(v: &RawValue) -> JsonValue {
    match v {
        RawValue::Null => JsonValue::Null,
        RawValue::Bool(b) => JsonValue::Bool(*b),
        RawValue::Number(n) => JsonValue::Number(match (n.as_i64(), n.as_u64()) {
            (Some(i), _) => JsonNumber::Int(i),
            (_, Some(u)) => JsonNumber::UInt(u),
            _ => JsonNumber::Dec(n.to_string()),
        }),
        RawValue::String(s) => JsonValue::Str(s.clone()),
        RawValue::Array(xs) => JsonValue::Array(xs.iter().map(from_serde_value).collect()),
        RawValue::Object(m) => JsonValue::Object(m.iter().map(|(k, x)| (k.clone(), from_serde_value(x))).collect()),
    }
}

/// Relies on `serde_json::from_str`: decodes JSON text, or nothing when
/// the text is not valid JSON.
#[verifier::external_body]
fn decode_json_text(s: &str) -> (r: Option<JsonValue>)
    ensures
        match r {
            Some(v) => json_decode(s@) == Some(v@),
            None => json_decode(s@) is None,
        },
{
    match serde_json::from_str::<RawValue>(s) {
        Ok(v) => Some(from_serde_value(&v)),
        Err(_) => None,
    }
}

impl JsonValue {
    /// Decodes JSON text into a value, or nothing when the text is not
    /// valid JSON.
    pub fn parse(s: &str) -> (r: Option<JsonValue>)
        ensures
            match r {
                Some(v) => json_decode(s@) == Some(v@),
                None => json_decode(s@) is None,
            },
    {
        decode_json_text(s)
    }
}

/// Equality of two strings, decided by their character sequences.
pub fn string_eq(a: &String, b: &String) -> (r: bool)
    ensures
        r == (a@ == b@),
{
    a.eq(b)
}

/// Looks up the first entry with the given key in an object's entry list.
pub fn lookup<'a>(entries: &'a Vec<(String, JsonValue)>, key: &String) -> (r: Option<
    &'a JsonValue,
>)
    ensures
        match r {
            Some(v) => {
                let i = spec_lookup_idx(entries_view(entries@), key@);
                0 <= i < entries@.len() && *v == entries@[i].1 && spec_lookup(
                    entries_view(entries@),
                    key@,
                ) == Some(v@)
            },
            None => spec_lookup_idx(entries_view(entries@), key@) == -1,
        },
{
    let ghost evs = entries_view(entries@);
    let mut i: usize = 0;
    while i < entries.len()
        invariant
            0 <= i <= entries.len(),
            evs == entries_view(entries@),
            forall|j: int| 0 <= j < i ==> evs[j].0 != key@,
        decreases entries.len() - i,
    {
        if string_eq(&entries[i].0, key) {
            proof {
                lemma_idx_at(evs, key@, i as int);
            }
            return Some(&entries[i].1);
        }
        i = i + 1;
    }
    proof {
        lemma_idx_none(evs, key@);
    }
    None
}

} // verus!
