//! The values of `config.json` as the editor sees them, how a typed-in
//! text becomes a value, and how a value is shown as text.

use vstd::prelude::*;
use crate::keyed_map::{Duplicate, KeyedMap};
use crate::number::{
    float_syntax, int_text, int_to_chars, is_float_literal, matches_word_ignoring_case,
    parse_i64, parse_i64_chars, same_word_ignoring_case,
};
use crate::number::{all_digits, law_decimal_literals_accepted, lemma_word_not_float};
use crate::number::{is_digit, lemma_nat_text, nat_text, split_sign};
use crate::text::{chars_of, is_space, string_of, trim_chars, trim_end, trim_start, trimmed};

verus! {

/// A JSON value below the top level of `config.json`.
///
/// Numbers with a fraction or an exponent are held as the text that JSON
/// writes for them; arrays and objects as their compact JSON text. The
/// editor shows and stores such values but never looks inside them.
#[derive(Debug)]
pub enum FlagValue {
    Null,
    Bool(bool),
    /// An integer; JSON integers lie between `i64::MIN` and `u64::MAX`.
    Int(i128),
    /// A number with a fraction or an exponent, as JSON writes it.
    Float(String),
    /// A JSON string.
    Text(String),
    /// An array or object, as its compact JSON text.
    Nested(String),
}

/// The mathematical model of a [`FlagValue`].
pub enum FlagView {
    Null,
    Bool(bool),
    Int(int),
    Float(Seq<char>),
    Text(Seq<char>),
    Nested(Seq<char>),
}

impl View for FlagValue {
    type V = FlagView;

    open spec fn view(&self) -> FlagView {
        match self {
            FlagValue::Null => FlagView::Null,
            FlagValue::Bool(b) => FlagView::Bool(*b),
            FlagValue::Int(i) => FlagView::Int(*i as int),
            FlagValue::Float(t) => FlagView::Float(t@),
            FlagValue::Text(t) => FlagView::Text(t@),
            FlagValue::Nested(t) => FlagView::Nested(t@),
        }
    }
}

impl Duplicate for FlagValue {
    fn duplicate(&self) -> (r: Self) {
        match self {
            FlagValue::Null => FlagValue::Null,
            FlagValue::Bool(b) => FlagValue::Bool(*b),
            FlagValue::Int(i) => FlagValue::Int(*i),
            FlagValue::Float(t) => FlagValue::Float(t.clone()),
            FlagValue::Text(t) => FlagValue::Text(t.clone()),
            FlagValue::Nested(t) => FlagValue::Nested(t.clone()),
        }
    }
}

/// A value at the top level of `config.json`: a plain value, or an object
/// whose members the editor reads one by one.
#[derive(Debug)]
pub enum ConfigValue {
    Value(FlagValue),
    Table(KeyedMap<FlagValue>),
}

/// The model of a [`ConfigValue`]; a table is seen as its keys in order
/// and the map from keys to values.
pub enum ConfigView {
    Value(FlagView),
    Table(Seq<Seq<char>>, Map<Seq<char>, FlagView>),
}

impl View for ConfigValue {
    type V = ConfigView;

    open spec fn view(&self) -> ConfigView {
        match self {
            ConfigValue::Value(v) => ConfigView::Value(v@),
            ConfigValue::Table(m) => ConfigView::Table(m.key_seq(), m@),
        }
    }
}

impl Duplicate for ConfigValue {
    fn duplicate(&self) -> (r: Self) {
        match self {
            ConfigValue::Value(v) => ConfigValue::Value(v.duplicate()),
            ConfigValue::Table(m) => ConfigValue::Table(m.duplicate()),
        }
    }
}

impl ConfigValue {
    /// The value is well formed: a table's keys are in order.
    pub open spec fn wf(&self) -> bool {
        match self {
            ConfigValue::Value(_) => true,
            ConfigValue::Table(m) => m.wf(),
        }
    }
}

/// What a text typed into the editor becomes: a value, or a decimal
/// number with a fraction or exponent, which the program turns into a
/// floating-point JSON number.
#[derive(Debug)]
pub enum Coerced {
    Value(FlagValue),
    Decimal(String),
}

/// The model of a [`Coerced`].
pub enum CoercedView {
    Value(FlagView),
    Decimal(Seq<char>),
}

impl View for Coerced {
    type V = CoercedView;

    open spec fn view(&self) -> CoercedView {
        match self {
            Coerced::Value(v) => CoercedView::Value(v@),
            Coerced::Decimal(t) => CoercedView::Decimal(t@),
        }
    }
}

/// What a typed-in text means: after trimming, `true` or `false` in any
/// case is a boolean, a text `i64::from_str` accepts is an integer, a text
/// `f64::from_str` accepts is a decimal number, and anything else is the
/// trimmed text itself.
pub open spec fn coerce_spec(text: Seq<char>) -> CoercedView {
    let t = trimmed(text);
    if same_word_ignoring_case(t, "true"@) {
        CoercedView::Value(FlagView::Bool(true))
    } else if same_word_ignoring_case(t, "false"@) {
        CoercedView::Value(FlagView::Bool(false))
    } else if parse_i64(t) is Some {
        CoercedView::Value(FlagView::Int(parse_i64(t).unwrap() as int))
    } else if float_syntax(t) {
        CoercedView::Decimal(t)
    } else {
        CoercedView::Value(FlagView::Text(t))
    }
}

/// Turns a typed-in text into a value (see [`coerce_spec`]).
pub fn coerce_value(text: &str) -> (r: Coerced)
    ensures
        r@ == coerce_spec(text@),
{
    let cs = chars_of(text);
    let t = trim_chars(&cs);
    let true_word = chars_of("true");
    let false_word = chars_of("false");
    if matches_word_ignoring_case(&t, &true_word) {
        return Coerced::Value(FlagValue::Bool(true));
    }
    if matches_word_ignoring_case(&t, &false_word) {
        return Coerced::Value(FlagValue::Bool(false));
    }
    match parse_i64_chars(&t) {
        Some(i) => Coerced::Value(FlagValue::Int(i as i128)),
        None => {
            if is_float_literal(&t) {
                Coerced::Decimal(string_of(t.as_slice()))
            } else {
                Coerced::Value(FlagValue::Text(string_of(t.as_slice())))
            }
        },
    }
}

/// How a value is shown: a string as its own text, anything else as its
/// JSON text.
pub open spec fn flag_text(v: FlagView) -> Seq<char> {
    match v {
        FlagView::Null => "null"@,
        FlagView::Bool(b) => if b {
            "true"@
        } else {
            "false"@
        },
        FlagView::Int(i) => int_text(i),
        FlagView::Float(t) => t,
        FlagView::Text(t) => t,
        FlagView::Nested(t) => t,
    }
}

/// The text shown for `v` (see [`flag_text`]).
pub fn value_to_string(v: &FlagValue) -> (s: String)
    ensures
        s@ == flag_text(v@),
{
    match v {
        FlagValue::Null => String::from_str("null"),
        FlagValue::Bool(b) => if *b {
            String::from_str("true")
        } else {
            String::from_str("false")
        },
        FlagValue::Int(i) => {
            let cs = int_to_chars(*i);
            string_of(cs.as_slice())
        },
        FlagValue::Float(t) => t.clone(),
        FlagValue::Text(t) => t.clone(),
        FlagValue::Nested(t) => t.clone(),
    }
}

/// The lower-case hexadecimal digit whose value is `d` (for `0 <= d < 16`).
pub open spec fn hex_digit(d: int) -> char {
    if d < 10 {
        crate::number::digit_char(d)
    } else if d == 10 {
        'a'
    } else if d == 11 {
        'b'
    } else if d == 12 {
        'c'
    } else if d == 13 {
        'd'
    } else if d == 14 {
        'e'
    } else {
        'f'
    }
}

/// How JSON writes the character `c` inside a string: `"` and `\` behind a
/// backslash, the control characters with a short escape where JSON has
/// one and as `\u00XX` otherwise, and every other character as it is.
pub open spec fn char_escape(c: char) -> Seq<char> {
    if c == '"' {
        seq!['\\', '"']
    } else if c == '\\' {
        seq!['\\', '\\']
    } else if c == '\u{8}' {
        seq!['\\', 'b']
    } else if c == '\u{c}' {
        seq!['\\', 'f']
    } else if c == '\n' {
        seq!['\\', 'n']
    } else if c == '\r' {
        seq!['\\', 'r']
    } else if c == '\t' {
        seq!['\\', 't']
    } else if (c as u32) < 0x20 {
        seq!['\\', 'u', '0', '0', hex_digit((c as u32) as int / 16), hex_digit((c as u32) as int % 16)]
    } else {
        seq![c]
    }
}

/// The characters of `s`, each written as JSON writes it in a string.
pub open spec fn escaped(s: Seq<char>) -> Seq<char>
    decreases s.len(),
{
    if s.len() == 0 {
        Seq::<char>::empty()
    } else {
        escaped(s.drop_last()) + char_escape(s.last())
    }
}

/// `s` as a JSON string literal.
pub open spec fn quoted(s: Seq<char>) -> Seq<char> {
    seq!['"'] + escaped(s) + seq!['"']
}

/// The compact JSON text of a value.
pub open spec fn json_text(v: FlagView) -> Seq<char> {
    match v {
        FlagView::Text(t) => quoted(t),
        _ => flag_text(v),
    }
}

/// One member of a JSON object: the quoted key, a colon, the value.
pub open spec fn member_text(k: Seq<char>, v: FlagView) -> Seq<char> {
    quoted(k) + seq![':'] + json_text(v)
}

/// The members under `keys`, in that order, separated by commas.
pub open spec fn members_text(keys: Seq<Seq<char>>, m: Map<Seq<char>, FlagView>) -> Seq<char>
    decreases keys.len(),
{
    if keys.len() == 0 {
        Seq::<char>::empty()
    } else if keys.len() == 1 {
        member_text(keys[0], m[keys[0]])
    } else {
        members_text(keys.drop_last(), m) + seq![','] + member_text(keys.last(), m[keys.last()])
    }
}

/// How a top-level value is shown: a plain value as by [`flag_text`], an
/// object as its compact JSON text, members in key order.
pub open spec fn config_text(v: ConfigView) -> Seq<char> {
    match v {
        ConfigView::Value(f) => flag_text(f),
        ConfigView::Table(keys, m) => seq!['{'] + members_text(keys, m) + seq!['}'],
    }
}

/// The JSON string literal of `s`, as serde_json writes it.
///
/// Trusted: calls `serde_json::to_string` on the string slice. Its source
/// (`format_escaped_str` and the `ESCAPE` table in `ser.rs`) writes a `"`,
/// each character escaped as [`char_escape`] says, and a closing `"`;
/// serialising a `str` into memory cannot fail, so the empty text of the
/// error case never comes back.
#[verifier::external_body]
fn json_quoted(s: &str) -> (r: String)
    ensures
        r@ == quoted(s@),
{
    serde_json::to_string(s).unwrap_or_default()
}

/// Appends `s` as a JSON string literal to `out`.
fn push_quoted(out: &mut Vec<char>, s: &str)
    ensures
        final(out)@ == old(out)@ + quoted(s@),
{
    let q = json_quoted(s);
    push_str(out, q.as_str());
}

/// Appends the characters of `s` to `out`.
fn push_str(out: &mut Vec<char>, s: &str)
    ensures
        final(out)@ == old(out)@ + s@,
{
    let mut cs = chars_of(s);
    out.append(&mut cs);
}

/// Appends the compact JSON text of `v` to `out`.
fn push_json(out: &mut Vec<char>, v: &FlagValue)
    ensures
        final(out)@ == old(out)@ + json_text(v@),
{
    match v {
        FlagValue::Text(t) => push_quoted(out, t.as_str()),
        _ => {
            let s = value_to_string(v);
            push_str(out, s.as_str());
        },
    }
}

/// The text shown for a top-level value (see [`config_text`]).
pub fn config_value_to_string(v: &ConfigValue) -> (s: String)
    requires
        v.wf(),
    ensures
        s@ == config_text(v@),
{
    match v {
        ConfigValue::Value(f) => value_to_string(f),
        ConfigValue::Table(m) => {
            let mut out: Vec<char> = Vec::new();
            out.push('{');
            let ghost keys = m.key_seq();
            proof {
                m.lemma_key_seq();
            }
            let mut i: usize = 0;
            while i < m.len()
                invariant
                    m.wf(),
                    keys == m.key_seq(),
                    i <= keys.len(),
                    forall|j: int| 0 <= j < keys.len() ==> #[trigger] m@[keys[j]] == m.value_seq()[j],
                    out@ == seq!['{'] + members_text(keys.take(i as int), m@),
                decreases keys.len() - i,
            {
                let (k, val) = m.entry(i);
                if i > 0 {
                    out.push(',');
                }
                push_quoted(&mut out, k.as_str());
                out.push(':');
                push_json(&mut out, val);
                proof {
                    let t = keys.take(i + 1);
                    assert(t.drop_last() =~= keys.take(i as int));
                    assert(t.last() == keys[i as int]);
                    if i == 0 {
                        assert(t.len() == 1);
                        assert(keys.take(0) =~= Seq::<Seq<char>>::empty());
                    }
                }
                i += 1;
                assert(out@ =~= seq!['{'] + members_text(keys.take(i as int), m@));
            }
            assert(keys.take(keys.len() as int) =~= keys);
            out.push('}');
            assert(out@ =~= seq!['{'] + members_text(keys, m@) + seq!['}']);
            string_of(out.as_slice())
        },
    }
}

/// The boolean a top-level value holds, if it is one.
pub fn as_bool(v: &ConfigValue) -> (r: Option<bool>)
    ensures
        r == (match v@ {
            ConfigView::Value(FlagView::Bool(b)) => Some(b),
            _ => None,
        }),
{
    match v {
        ConfigValue::Value(FlagValue::Bool(b)) => Some(*b),
        _ => None,
    }
}

/// A text that neither starts nor ends with white space is its own trim.
proof fn lemma_trimmed_unchanged(s: Seq<char>)
    requires
        s.len() > 0,
        !is_space(s[0]),
        !is_space(s.last()),
    ensures
        trimmed(s) == s,
{
    assert(trim_start(s) == s);
    assert(trim_end(s) == s);
}

/// An integer's decimal writing: a sign or digit first, a digit last.
proof fn lemma_int_text_shape(i: int)
    ensures
        int_text(i).len() > 0,
        int_text(i)[0] == '-' || is_digit(int_text(i)[0]),
        is_digit(int_text(i).last()),
        i >= 0 ==> is_digit(int_text(i)[0]),
{
    if i < 0 {
        lemma_nat_text((-i) as nat);
        let d = nat_text((-i) as nat);
        assert(int_text(i).last() == d.last());
        assert(is_digit(d[d.len() - 1]));
    } else {
        lemma_nat_text(i as nat);
        let d = nat_text(i as nat);
        assert(is_digit(d[0]));
        assert(is_digit(d[d.len() - 1]));
    }
}

/// An integer shown by the editor and typed back in is the same integer.
pub proof fn law_integer_round_trip(i: i64)
    ensures
        coerce_spec(flag_text(FlagView::Int(i as int))) == CoercedView::Value(FlagView::Int(i as int)),
{
    let s = int_text(i as int);
    lemma_int_text_shape(i as int);
    lemma_trimmed_unchanged(s);
    reveal_strlit("true");
    reveal_strlit("false");
    assert(!same_word_ignoring_case(s, "true"@)) by {
        if s.len() == 4 {
            assert(!crate::number::same_letter_ignoring_case(s[0], "true"@[0]));
        }
    }
    assert(!same_word_ignoring_case(s, "false"@)) by {
        if s.len() == 5 {
            assert(!crate::number::same_letter_ignoring_case(s[0], "false"@[0]));
        }
    }
    if i < 0 {
        let d = nat_text((-(i as int)) as nat);
        lemma_nat_text((-(i as int)) as nat);
        assert(split_sign(s).1 =~= d);
        assert(split_sign(s).0);
    } else {
        lemma_nat_text(i as nat);
        assert(split_sign(s).1 == s);
    }
    assert(parse_i64(s) == Some(i));
}

/// A boolean shown by the editor and typed back in is the same boolean.
pub proof fn law_boolean_round_trip(b: bool)
    ensures
        coerce_spec(flag_text(FlagView::Bool(b))) == CoercedView::Value(FlagView::Bool(b)),
{
    reveal_strlit("true");
    reveal_strlit("false");
    let s = flag_text(FlagView::Bool(b));
    lemma_trimmed_unchanged(s);
    assert(same_word_ignoring_case("true"@, "true"@));
    assert(same_word_ignoring_case("false"@, "false"@));
    assert(!same_word_ignoring_case("false"@, "true"@));
}

/// A decimal number shown by the editor and typed back in is handed on
/// as the same decimal text. The text is one the program writes for a
/// floating-point number: decimal syntax, no integer, no surrounding space.
pub proof fn law_decimal_round_trip(t: Seq<char>)
    requires
        float_syntax(t),
        parse_i64(t) is None,
        trimmed(t) == t,
    ensures
        coerce_spec(flag_text(FlagView::Float(t))) == CoercedView::Decimal(t),
{
    reveal_strlit("true");
    reveal_strlit("false");
    if same_word_ignoring_case(t, "true"@) {
        lemma_word_not_float(t, "true"@);
    }
    if same_word_ignoring_case(t, "false"@) {
        lemma_word_not_float(t, "false"@);
    }
}

/// A typed-in text never has its characters changed: whatever text or
/// decimal it becomes is exactly the typed text without surrounding space.
pub proof fn law_coerce_keeps_typed_text(s: Seq<char>)
    ensures
        coerce_spec(s) matches CoercedView::Value(FlagView::Text(u)) ==> u == trimmed(s),
        coerce_spec(s) matches CoercedView::Decimal(u) ==> u == trimmed(s),
{
}

/// A typed-in text that is no boolean word, no `i64` and no `f64` literal
/// is stored as the text itself, trimmed, letter for letter.
pub proof fn law_plain_text_kept(s: Seq<char>)
    requires
        !same_word_ignoring_case(trimmed(s), "true"@),
        !same_word_ignoring_case(trimmed(s), "false"@),
        parse_i64(trimmed(s)) is None,
        !float_syntax(trimmed(s)),
    ensures
        coerce_spec(s) == CoercedView::Value(FlagView::Text(trimmed(s))),
{
}

/// A text value shown by the editor and typed back in is the same text,
/// when it has no surrounding space and reads as no boolean or number.
pub proof fn law_text_round_trip(t: Seq<char>)
    requires
        trimmed(t) == t,
        !same_word_ignoring_case(t, "true"@),
        !same_word_ignoring_case(t, "false"@),
        parse_i64(t) is None,
        !float_syntax(t),
    ensures
        coerce_spec(flag_text(FlagView::Text(t))) == CoercedView::Value(FlagView::Text(t)),
{
}

/// A decimal typed with a sign or none, digits, a `.` and digits (at least
/// one digit in all) is handed on as that decimal number.
pub proof fn law_decimal_typed_in(sign: Seq<char>, w: Seq<char>, f: Seq<char>)
    requires
        sign == Seq::<char>::empty() || sign == seq!['+'] || sign == seq!['-'],
        all_digits(w),
        all_digits(f),
        w.len() + f.len() >= 1,
    ensures
        coerce_spec(sign + w + seq!['.'] + f) == CoercedView::Decimal(sign + w + seq!['.'] + f),
{
    let t = sign + w + seq!['.'] + f;
    law_decimal_literals_accepted(sign, w, f, seq!['0']);
    let c = t[0];
    assert(c == '+' || c == '-' || c == '.' || is_digit(c)) by {
        if sign.len() == 0 && w.len() > 0 {
            assert(t[0] == w[0]);
        }
    }
    assert(!is_space(t.last())) by {
        if f.len() > 0 {
            assert(t.last() == f.last());
            assert(is_digit(f[f.len() - 1]));
        }
    }
    lemma_trimmed_unchanged(t);
    reveal_strlit("true");
    reveal_strlit("false");
    assert(!crate::number::same_letter_ignoring_case(c, 't'));
    assert(!crate::number::same_letter_ignoring_case(c, 'f'));
    assert(!same_word_ignoring_case(t, "true"@));
    assert(!same_word_ignoring_case(t, "false"@));
    let body = split_sign(t).1;
    assert(body == w + seq!['.'] + f) by {
        if sign.len() == 0 {
            assert(t =~= w + seq!['.'] + f);
        } else {
            assert(t.drop_first() =~= w + seq!['.'] + f);
        }
    }
    assert(body[w.len() as int] == '.');
    assert(!all_digits(body));
    assert(parse_i64(t) is None);
}

} // verus!
