//! What the transcoder guarantees, proved against the state machine: for a
//! well-formed record value, the canonical fragment stream of a pretty
//! debug renderer transcodes to exactly the minified JSON of that value,
//! with every field name passed through the renaming policy; escaping
//! behaves as documented; and a stream that never opens the root object
//! leaves the machine untouched.
use vstd::prelude::*;

verus! {

use crate::chars::{
    all_digits,
    is_ascii_upper,
    is_digit,
    is_float_literal,
    lemma_digits_prefix,
    lemma_trim_id,
    pascal_of,
    trim_spec,
};
use crate::machine::{
    AggModel,
    Rule,
    TokenSet,
    classify,
    init_model,
    machine_run,
    machine_step,
    needs_comma,
    ts_after_scalar,
    ts_after_value,
    ts_body_only,
    ts_colon,
    ts_fields,
    ts_in_list,
    ts_in_string,
    ts_value,
    with_comma,
};

/// A value as a pretty debug renderer sees it: scalars, records with named
/// fields, and lists and tuples of further values. Ghost model only; the
/// text of string bodies, numbers and names is carried as it is emitted.
pub enum DebugValue {
    StrVal(Seq<char>),
    BoolVal(bool),
    NumVal(Seq<char>),
    RecordVal(Seq<char>, Box<FieldSeq>),
    ListVal(Box<ElemSeq>),
    TupleVal(Box<ElemSeq>),
}

/// The named fields of a record, in declaration order.
pub enum FieldSeq {
    FNil,
    FCons(Seq<char>, Box<DebugValue>, Box<FieldSeq>),
}

/// The elements of a list or tuple, in order.
pub enum ElemSeq {
    ENil,
    ECons(Box<DebugValue>, Box<ElemSeq>),
}

/// Booleans and numbers: the scalars that the machine appends without
/// consulting the comma rule.
pub open spec fn is_scalar(v: DebugValue) -> bool {
    v is BoolVal || v is NumVal
}

/// The canonical fragment stream a pretty debug renderer emits for a value:
/// a capitalized type name and `{` for a record, `[` or `(` for a sequence,
/// quotes around string bodies, a trailing `,` after each field and element,
/// and scalar text verbatim.
pub open spec fn frags_of(v: DebugValue) -> Seq<Seq<char>>
    decreases v,
{
    match v {
        DebugValue::StrVal(b) => if b.len() == 0 {
            seq![seq!['"'], seq!['"']]
        } else {
            seq![seq!['"'], b, seq!['"']]
        },
        DebugValue::BoolVal(b) => if b {
            seq![seq!['t', 'r', 'u', 'e']]
        } else {
            seq![seq!['f', 'a', 'l', 's', 'e']]
        },
        DebugValue::NumVal(d) => seq![d],
        DebugValue::RecordVal(name, fs) => seq![name, seq!['{']] + fields_frags(*fs) + seq![
            seq!['}'],
        ],
        DebugValue::ListVal(es) => seq![seq!['[']] + elems_frags(*es) + seq![seq![']']],
        DebugValue::TupleVal(es) => seq![seq!['(']] + elems_frags(*es) + seq![seq![')']],
    }
}

pub open spec fn fields_frags(fs: FieldSeq) -> Seq<Seq<char>>
    decreases fs,
{
    match fs {
        FieldSeq::FNil => Seq::empty(),
        FieldSeq::FCons(n, v, rest) => seq![n, seq![':']] + frags_of(*v) + seq![seq![',']]
            + fields_frags(*rest),
    }
}

pub open spec fn elems_frags(es: ElemSeq) -> Seq<Seq<char>>
    decreases es,
{
    match es {
        ElemSeq::ENil => Seq::empty(),
        ElemSeq::ECons(v, rest) => frags_of(*v) + seq![seq![',']] + elems_frags(*rest),
    }
}

/// The minified JSON text of a value, with each field name passed through
/// the renaming policy `g`. Tuples render as JSON lists.
pub open spec fn json_of(v: DebugValue, g: spec_fn(Seq<char>) -> Seq<char>) -> Seq<char>
    decreases v,
{
    match v {
        DebugValue::StrVal(b) => seq!['"'] + b + seq!['"'],
        DebugValue::BoolVal(b) => if b {
            seq!['t', 'r', 'u', 'e']
        } else {
            seq!['f', 'a', 'l', 's', 'e']
        },
        DebugValue::NumVal(d) => d,
        DebugValue::RecordVal(name, fs) => seq!['{'] + fields_json(*fs, g) + seq!['}'],
        DebugValue::ListVal(es) => seq!['['] + elems_json(*es, g) + seq![']'],
        DebugValue::TupleVal(es) => seq!['['] + elems_json(*es, g) + seq![']'],
    }
}

pub open spec fn fields_json(fs: FieldSeq, g: spec_fn(Seq<char>) -> Seq<char>) -> Seq<char>
    decreases fs,
{
    match fs {
        FieldSeq::FNil => Seq::empty(),
        FieldSeq::FCons(n, v, rest) => {
            let entry = seq!['"'] + g(n) + seq!['"', ':'] + json_of(*v, g);
            match *rest {
                FieldSeq::FNil => entry,
                FieldSeq::FCons(..) => entry + seq![','] + fields_json(*rest, g),
            }
        },
    }
}

pub open spec fn elems_json(es: ElemSeq, g: spec_fn(Seq<char>) -> Seq<char>) -> Seq<char>
    decreases es,
{
    match es {
        ElemSeq::ENil => Seq::empty(),
        ElemSeq::ECons(v, rest) => {
            let entry = json_of(*v, g);
            match *rest {
                ElemSeq::ENil => entry,
                ElemSeq::ECons(..) => entry + seq![','] + elems_json(*rest, g),
            }
        },
    }
}

/// A usable field name: nonempty, not starting with an uppercase ASCII
/// letter, already trimmed, and not mistakable for any of the machine's
/// literal tokens, a boolean, or a number.
pub open spec fn wf_field_name(n: Seq<char>) -> bool {
    &&& n.len() > 0
    &&& !is_ascii_upper(n[0])
    &&& trim_spec(n) == n
    &&& n != seq![',']
    &&& n != seq!['{']
    &&& n != seq!['}']
    &&& n != seq!['[']
    &&& n != seq![']']
    &&& n != seq!['(']
    &&& n != seq![')']
    &&& n != seq!['"']
    &&& n != seq![':']
    &&& n != seq!['t', 'r', 'u', 'e']
    &&& n != seq!['f', 'a', 'l', 's', 'e']
    &&& !is_float_literal(n)
}

/// A type name as a renderer emits it before a record's brace: nonempty,
/// capitalized, trimmed, and not readable as a number.
pub open spec fn wf_type_name(n: Seq<char>) -> bool {
    &&& n.len() > 0
    &&& is_ascii_upper(n[0])
    &&& trim_spec(n) == n
    &&& !is_float_literal(n)
}

/// A string body fragment that passes through the machine verbatim: already
/// trimmed, not a lone backslash, and not a lone quote.
pub open spec fn wf_str_body(b: Seq<char>) -> bool {
    &&& trim_spec(b) == b
    &&& b != seq!['\\']
    &&& b != seq!['"']
}

pub open spec fn wf_value(v: DebugValue) -> bool
    decreases v,
{
    match v {
        DebugValue::StrVal(b) => b.len() == 0 || wf_str_body(b),
        DebugValue::BoolVal(_) => true,
        DebugValue::NumVal(d) => all_digits(d),
        DebugValue::RecordVal(name, fs) => wf_type_name(name) && wf_fields(*fs),
        DebugValue::ListVal(es) => wf_elems(*es),
        DebugValue::TupleVal(es) => wf_elems(*es),
    }
}

pub open spec fn wf_fields(fs: FieldSeq) -> bool
    decreases fs,
{
    match fs {
        FieldSeq::FNil => true,
        FieldSeq::FCons(n, v, rest) => wf_field_name(n) && wf_value(*v) && wf_fields(*rest),
    }
}

/// The element shapes the machine transcodes faithfully: a scalar may stand
/// only first, since scalars are appended without the comma rule and two in
/// a row would merge; later elements are strings or nested structures.
pub open spec fn wf_elems(es: ElemSeq) -> bool
    decreases es,
{
    match es {
        ElemSeq::ENil => true,
        ElemSeq::ECons(v, rest) => wf_value(*v) && wf_elem_tail(*rest),
    }
}

pub open spec fn wf_elem_tail(es: ElemSeq) -> bool
    decreases es,
{
    match es {
        ElemSeq::ENil => true,
        ElemSeq::ECons(v, rest) => {
            &&& wf_value(*v)
            &&& !is_scalar(*v)
            &&& wf_elem_tail(*rest)
        },
    }
}

/// Whether the last element is a scalar, which decides the machine's state
/// after the sequence.
pub open spec fn last_elem_scalar(es: ElemSeq) -> bool
    decreases es,
{
    match es {
        ElemSeq::ENil => false,
        ElemSeq::ECons(v, rest) => if *rest is ENil {
            is_scalar(*v)
        } else {
            last_elem_scalar(*rest)
        },
    }
}

pub open spec fn last_field_scalar(fs: FieldSeq) -> bool
    decreases fs,
{
    match fs {
        FieldSeq::FNil => false,
        FieldSeq::FCons(_, v, rest) => if *rest is FNil {
            is_scalar(*v)
        } else {
            last_field_scalar(*rest)
        },
    }
}

/// The characters the comma rule reads as the end of a completed value.
pub open spec fn closes_value(c: char) -> bool {
    c == '"' || c == ']' || c == '}' || is_digit(c) || c == 'e'
}

/// Every well-formed value's JSON text is nonempty and ends in a character
/// that the comma rule recognizes, so a following sibling gets its comma.
pub proof fn lemma_json_closes(v: DebugValue, g: spec_fn(Seq<char>) -> Seq<char>)
    requires
        wf_value(v),
    ensures
        json_of(v, g).len() > 0,
        closes_value(json_of(v, g).last()),
{
    match v {
        DebugValue::StrVal(b) => {
            assert(json_of(v, g).last() == '"');
        },
        DebugValue::BoolVal(b) => {
            assert(json_of(v, g).last() == 'e');
        },
        DebugValue::NumVal(d) => {
            assert(is_digit(d.last()));
        },
        DebugValue::RecordVal(name, fs) => {
            assert(json_of(v, g).last() == '}');
        },
        DebugValue::ListVal(es) => {
            assert(json_of(v, g).last() == ']');
        },
        DebugValue::TupleVal(es) => {
            assert(json_of(v, g).last() == ']');
        },
    }
}

/// A run over concatenated fragment streams is the composition of the runs.
pub proof fn lemma_run_append(
    st: AggModel,
    a: Seq<Seq<char>>,
    b: Seq<Seq<char>>,
    g: spec_fn(Seq<char>) -> Seq<char>,
)
    ensures
        machine_run(st, a + b, g) == machine_run(machine_run(st, a, g), b, g),
    decreases a.len(),
{
    if a.len() == 0 {
        assert(a + b =~= b);
    } else {
        assert((a + b)[0] == a[0]);
        assert((a + b).drop_first() =~= a.drop_first() + b);
        lemma_run_append(
            machine_step(st, a[0], g(trim_spec(a[0]))),
            a.drop_first(),
            b,
            g,
        );
    }
}

/// A run of a single fragment is one step.
pub proof fn lemma_run_one(st: AggModel, raw: Seq<char>, g: spec_fn(Seq<char>) -> Seq<char>)
    ensures
        machine_run(st, seq![raw], g) == machine_step(st, raw, g(trim_spec(raw))),
{
    assert(seq![raw].drop_first() =~= Seq::<Seq<char>>::empty());
    assert(seq![raw][0] == raw);
    let st1 = machine_step(st, raw, g(trim_spec(raw)));
    assert(machine_run(st1, Seq::empty(), g) == st1);
    assert(machine_run(st, seq![raw], g) == machine_run(st1, seq![raw].drop_first(), g));
}

/// In any state that follows a completed value, the renderer's own trailing
/// comma fragment is dropped without a state change.
pub proof fn lemma_comma_dropped(st: AggModel, rn: Seq<char>)
    requires
        st.expecting == ts_after_value() || st.expecting == ts_after_scalar(),
    ensures
        machine_step(st, seq![','], rn) == st,
{
    lemma_trim_id(seq![',']);
}

/// Idempotent escaping: inside a string, a lone backslash fragment followed
/// by a quote fragment appends a double backslash and then the quote
/// verbatim, and the machine stays inside the string. The quote is thereby
/// always preceded by the two-backslash sequence, however often fed.
pub proof fn law_escape_backslash_quote(st: AggModel, g: spec_fn(Seq<char>) -> Seq<char>)
    requires
        st.expecting == ts_in_string(),
    ensures
        machine_run(st, seq![seq!['\\'], seq!['"']], g) == (AggModel {
            out: st.out + seq!['\\', '\\', '"'],
            expecting: ts_in_string(),
        }),
{
    lemma_trim_id(seq!['\\']);
    lemma_trim_id(seq!['"']);
    let st1 = machine_step(st, seq!['\\'], g(trim_spec(seq!['\\'])));
    assert(st1.out =~= st.out + seq!['\\', '\\']);
    assert(st1.expecting == ts_body_only());
    let st2 = machine_step(st1, seq!['"'], g(trim_spec(seq!['"'])));
    assert(st2.out =~= st.out + seq!['\\', '\\', '"']);
    assert(seq![seq!['\\'], seq!['"']].drop_first() =~= seq![seq!['"']]);
    lemma_run_one(st1, seq!['"'], g);
    assert(machine_run(st, seq![seq!['\\'], seq!['"']], g) == st2);
    assert(st2 =~= (AggModel { out: st.out + seq!['\\', '\\', '"'], expecting: ts_in_string() }));
}

/// A run of two fragments is two steps.
pub proof fn lemma_run_two(
    st: AggModel,
    r1: Seq<char>,
    r2: Seq<char>,
    g: spec_fn(Seq<char>) -> Seq<char>,
)
    ensures
        machine_run(st, seq![r1, r2], g) == machine_step(
            machine_step(st, r1, g(trim_spec(r1))),
            r2,
            g(trim_spec(r2)),
        ),
{
    assert(seq![r1, r2].drop_first() =~= seq![r2]);
    assert(seq![r1, r2][0] == r1);
    lemma_run_one(machine_step(st, r1, g(trim_spec(r1))), r2, g);
}

/// All digits reads as a number.
pub proof fn lemma_digits_float(d: Seq<char>)
    requires
        all_digits(d),
    ensures
        is_float_literal(d),
{
    assert(is_digit(d[0]));
    lemma_digits_prefix(d, d.len() as int);
    assert(d.skip(d.len() as int).len() == 0);
}

/// Whether the machine may accept the first fragment of this value here:
/// not inside a string body, and with the token kind that opens the value
/// among the expected ones.
pub open spec fn starts_ok(e: TokenSet, v: DebugValue) -> bool {
    &&& !e.string_body
    &&& match v {
        DebugValue::StrVal(_) => e.string_start,
        DebugValue::BoolVal(_) => e.number,
        DebugValue::NumVal(_) => e.number,
        DebugValue::RecordVal(..) => e.open_brace,
        DebugValue::ListVal(_) => e.open_bracket,
        DebugValue::TupleVal(_) => e.open_bracket,
    }
}

/// The expected set after a completed value: scalars admit further scalars,
/// everything else admits what may follow a completed value.
pub open spec fn post_expecting(v: DebugValue) -> TokenSet {
    if is_scalar(v) {
        ts_after_scalar()
    } else {
        ts_after_value()
    }
}

/// The buffer after a value: scalars are appended without the comma rule;
/// objects, lists and strings first get the owed comma.
pub open spec fn out_after(
    out: Seq<char>,
    v: DebugValue,
    g: spec_fn(Seq<char>) -> Seq<char>,
) -> Seq<char> {
    if is_scalar(v) {
        out + json_of(v, g)
    } else {
        with_comma(out) + json_of(v, g)
    }
}

/// The heart of the correctness argument: feeding the canonical fragment
/// stream of one well-formed value, from any state that admits its opening
/// token, appends exactly its JSON text (with the owed comma) and leaves
/// the machine expecting what follows a completed value.
pub proof fn lemma_value_run(st: AggModel, v: DebugValue, g: spec_fn(Seq<char>) -> Seq<char>)
    requires
        wf_value(v),
        starts_ok(st.expecting, v),
    ensures
        machine_run(st, frags_of(v), g) == (AggModel {
            out: out_after(st.out, v, g),
            expecting: post_expecting(v),
        }),
    decreases v,
{
    match v {
        DebugValue::StrVal(b) => {
            lemma_trim_id(seq!['"']);
            let q = seq!['"'];
            let st1 = machine_step(st, q, g(trim_spec(q)));
            assert(classify(st.expecting, q) == Rule::StringStart);
            if b.len() == 0 {
                lemma_run_two(st, q, q, g);
                let st2 = machine_step(st1, q, g(trim_spec(q)));
                assert(classify(ts_in_string(), q) == Rule::StringEnd);
                assert(st2.out =~= with_comma(st.out) + (seq!['"'] + b + seq!['"']));
            } else {
                assert(trim_spec(b) == b);
                assert(classify(ts_in_string(), b) == Rule::Body);
                let st2 = machine_step(st1, b, g(trim_spec(b)));
                let st3 = machine_step(st2, q, g(trim_spec(q)));
                assert(classify(ts_in_string(), b) == Rule::Body);
                assert(classify(st2.expecting, q) == Rule::StringEnd);
                assert(frags_of(v) == seq![q, b, q]);
                assert(seq![q, b, q].drop_first() =~= seq![b, q]);
                assert(seq![q, b, q][0] == q);
                lemma_run_two(st1, b, q, g);
                assert(machine_run(st, frags_of(v), g) == st3);
                assert(st3.out =~= with_comma(st.out) + (seq!['"'] + b + seq!['"']));
            }
        },
        DebugValue::BoolVal(bv) => {
            if bv {
                lemma_trim_id(seq!['t', 'r', 'u', 'e']);
                lemma_run_one(st, seq!['t', 'r', 'u', 'e'], g);
                assert(classify(st.expecting, seq!['t', 'r', 'u', 'e']) == Rule::LitTrue);
            } else {
                lemma_trim_id(seq!['f', 'a', 'l', 's', 'e']);
                lemma_run_one(st, seq!['f', 'a', 'l', 's', 'e'], g);
                assert(classify(st.expecting, seq!['f', 'a', 'l', 's', 'e']) == Rule::LitFalse);
            }
        },
        DebugValue::NumVal(d) => {
            assert(is_digit(d[0]));
            assert(is_digit(d.last()));
            lemma_trim_id(d);
            lemma_digits_float(d);
            lemma_run_one(st, d, g);
            assert(classify(st.expecting, d) == Rule::Number);
        },
        DebugValue::RecordVal(name, fs) => {
            let brace = seq!['{'];
            let close = seq!['}'];
            lemma_trim_id(brace);
            lemma_trim_id(close);
            let a = seq![name, brace];
            let b = fields_frags(*fs);
            let c = seq![close];
            assert(frags_of(v) == (a + b) + c);
            lemma_run_append(st, a + b, c, g);
            lemma_run_append(st, a, b, g);
            lemma_run_two(st, name, brace, g);
            assert(is_ascii_upper(name[0]));
            assert(classify(st.expecting, name) == Rule::NoMatch);
            let st1 = machine_step(st, name, g(trim_spec(name)));
            assert(st1 == st);
            assert(classify(st.expecting, brace) == Rule::OpenBrace);
            let st2 = machine_step(st1, brace, g(trim_spec(brace)));
            assert(st2.expecting == ts_fields());
            assert(st2.out == with_comma(st.out).push('{'));
            assert(st2.out.last() == '{');
            assert(!needs_comma(st2.out));
            lemma_fields_run(st2, true, false, *fs, g);
            let st3 = machine_run(st2, b, g);
            assert(st3.expecting.close_brace);
            assert(classify(st3.expecting, close) == Rule::CloseBrace);
            lemma_run_one(st3, close, g);
            let st4 = machine_step(st3, close, g(trim_spec(close)));
            assert(st4.out =~= with_comma(st.out) + (seq!['{'] + fields_json(*fs, g) + seq![
                '}',
            ]));
            assert(machine_run(st, frags_of(v), g) == st4);
        },
        DebugValue::ListVal(es) => {
            lemma_seq_open_close(st, seq!['['], *es, seq![']'], v, g);
        },
        DebugValue::TupleVal(es) => {
            lemma_seq_open_close(st, seq!['('], *es, seq![')'], v, g);
        },
    }
}

/// The shared body of the list and tuple cases: the opening delimiter, the
/// elements, the closing delimiter.
pub proof fn lemma_seq_open_close(
    st: AggModel,
    open_frag: Seq<char>,
    es: ElemSeq,
    close_frag: Seq<char>,
    v: DebugValue,
    g: spec_fn(Seq<char>) -> Seq<char>,
)
    requires
        wf_value(v),
        starts_ok(st.expecting, v),
        (v == DebugValue::ListVal(Box::new(es)) && open_frag == seq!['['] && close_frag
            == seq![']']) || (v == DebugValue::TupleVal(Box::new(es)) && open_frag == seq!['(']
            && close_frag == seq![')']),
    ensures
        machine_run(st, frags_of(v), g) == (AggModel {
            out: out_after(st.out, v, g),
            expecting: post_expecting(v),
        }),
    decreases v, 0nat,
{
    lemma_trim_id(open_frag);
    lemma_trim_id(close_frag);
    let a = seq![open_frag];
    let b = elems_frags(es);
    let c = seq![close_frag];
    assert(frags_of(v) == (a + b) + c);
    lemma_run_append(st, a + b, c, g);
    lemma_run_append(st, a, b, g);
    lemma_run_one(st, open_frag, g);
    assert(classify(st.expecting, open_frag) == Rule::OpenBracket);
    let st1 = machine_step(st, open_frag, g(trim_spec(open_frag)));
    assert(st1.expecting == ts_in_list());
    assert(st1.out == with_comma(st.out).push('['));
    assert(st1.out.last() == '[');
    assert(!needs_comma(st1.out));
    assert(wf_elems(es));
    lemma_elems_run(st1, true, false, es, g);
    let st2 = machine_run(st1, b, g);
    assert(st2.expecting.close_bracket);
    assert(classify(st2.expecting, close_frag) == Rule::CloseBracket);
    lemma_run_one(st2, close_frag, g);
    let st3 = machine_step(st2, close_frag, g(trim_spec(close_frag)));
    assert(st3.out =~= with_comma(st.out) + (seq!['['] + elems_json(es, g) + seq![']']));
    assert(machine_run(st, frags_of(v), g) == st3);
}

/// Feeding a record's field list: each field name is appended as a quoted,
/// renamed key with its colon, each value by `lemma_value_run`, and the
/// renderer's separator commas are dropped; the keys join with exactly one
/// comma between entries.
pub proof fn lemma_fields_run(
    st: AggModel,
    first: bool,
    prev_scalar: bool,
    fs: FieldSeq,
    g: spec_fn(Seq<char>) -> Seq<char>,
)
    requires
        wf_fields(fs),
        first ==> st.expecting == ts_fields() && !needs_comma(st.out),
        !first ==> needs_comma(st.out) && st.expecting == (if prev_scalar {
            ts_after_scalar()
        } else {
            ts_after_value()
        }),
    ensures
        machine_run(st, fields_frags(fs), g) == (AggModel {
            out: st.out + (if fs is FNil {
                Seq::<char>::empty()
            } else if first {
                fields_json(fs, g)
            } else {
                seq![','] + fields_json(fs, g)
            }),
            expecting: (if fs is FNil {
                st.expecting
            } else if last_field_scalar(fs) {
                ts_after_scalar()
            } else {
                ts_after_value()
            }),
        }),
    decreases fs,
{
    match fs {
        FieldSeq::FNil => {
            assert(fields_frags(fs) =~= Seq::<Seq<char>>::empty());
            assert(st.out + Seq::<char>::empty() =~= st.out);
        },
        FieldSeq::FCons(n, val, rest) => {
            let colon = seq![':'];
            let comma = seq![','];
            lemma_trim_id(colon);
            lemma_trim_id(comma);
            assert(trim_spec(n) == n);
            let a = seq![n, colon];
            let b = frags_of(*val);
            let c = seq![comma];
            let d = fields_frags(*rest);
            assert(fields_frags(fs) == ((a + b) + c) + d);
            lemma_run_append(st, (a + b) + c, d, g);
            lemma_run_append(st, a + b, c, g);
            lemma_run_append(st, a, b, g);
            lemma_run_two(st, n, colon, g);
            assert(classify(st.expecting, n) == Rule::Field);
            let st1 = machine_step(st, n, g(trim_spec(n)));
            assert(st1.out == with_comma(st.out) + seq!['"'] + g(n) + seq!['"', ':']);
            assert(st1.expecting == ts_colon());
            assert(classify(ts_colon(), colon) == Rule::Colon);
            let st2 = machine_step(st1, colon, g(trim_spec(colon)));
            assert(st2.out == st1.out && st2.expecting == ts_value());
            assert(st2.out.last() == ':');
            assert(!needs_comma(st2.out));
            lemma_value_run(st2, *val, g);
            let st3 = machine_run(st2, b, g);
            assert(st3.out == st2.out + json_of(*val, g)) by {
                assert(with_comma(st2.out) == st2.out);
            }
            lemma_json_closes(*val, g);
            assert(st3.out.last() == json_of(*val, g).last());
            assert(needs_comma(st3.out));
            lemma_run_one(st3, comma, g);
            lemma_comma_dropped(st3, g(trim_spec(comma)));
            let st4 = machine_step(st3, comma, g(trim_spec(comma)));
            assert(st4 == st3);
            lemma_fields_run(st4, false, is_scalar(*val), *rest, g);
            let entry = seq!['"'] + g(n) + seq!['"', ':'] + json_of(*val, g);
            if *rest is FNil {
                assert(machine_run(st, fields_frags(fs), g).out =~= st.out + (if first {
                    fields_json(fs, g)
                } else {
                    seq![','] + fields_json(fs, g)
                }));
            } else {
                assert(fields_json(fs, g) == entry + seq![','] + fields_json(*rest, g));
                assert(machine_run(st, fields_frags(fs), g).out =~= st.out + (if first {
                    fields_json(fs, g)
                } else {
                    seq![','] + fields_json(fs, g)
                }));
            }
        },
    }
}

/// Feeding a list's or tuple's elements: each element appends its JSON with
/// the owed comma, the renderer's separator commas are dropped, and the
/// entries join with exactly one comma between them.
pub proof fn lemma_elems_run(
    st: AggModel,
    first: bool,
    prev_scalar: bool,
    es: ElemSeq,
    g: spec_fn(Seq<char>) -> Seq<char>,
)
    requires
        first ==> st.expecting == ts_in_list() && !needs_comma(st.out) && wf_elems(es),
        !first ==> needs_comma(st.out) && st.expecting == (if prev_scalar {
            ts_after_scalar()
        } else {
            ts_after_value()
        }) && wf_elem_tail(es),
    ensures
        machine_run(st, elems_frags(es), g) == (AggModel {
            out: st.out + (if es is ENil {
                Seq::<char>::empty()
            } else if first {
                elems_json(es, g)
            } else {
                seq![','] + elems_json(es, g)
            }),
            expecting: (if es is ENil {
                st.expecting
            } else if last_elem_scalar(es) {
                ts_after_scalar()
            } else {
                ts_after_value()
            }),
        }),
    decreases es,
{
    match es {
        ElemSeq::ENil => {
            assert(elems_frags(es) =~= Seq::<Seq<char>>::empty());
            assert(st.out + Seq::<char>::empty() =~= st.out);
        },
        ElemSeq::ECons(val, rest) => {
            let comma = seq![','];
            lemma_trim_id(comma);
            let b = frags_of(*val);
            let c = seq![comma];
            let d = elems_frags(*rest);
            assert(elems_frags(es) == (b + c) + d);
            lemma_run_append(st, b + c, d, g);
            lemma_run_append(st, b, c, g);
            assert(starts_ok(st.expecting, *val));
            lemma_value_run(st, *val, g);
            let st1 = machine_run(st, b, g);
            if first {
                assert(st1.out == st.out + json_of(*val, g)) by {
                    if !is_scalar(*val) {
                        assert(with_comma(st.out) == st.out);
                    }
                }
            } else {
                assert(!is_scalar(*val));
                assert(st1.out == st.out + seq![','] + json_of(*val, g)) by {
                    assert(with_comma(st.out) == st.out.push(','));
                    assert(st.out.push(',') + json_of(*val, g) =~= st.out + seq![','] + json_of(
                        *val,
                        g,
                    ));
                }
            }
            lemma_json_closes(*val, g);
            assert(st1.out.last() == json_of(*val, g).last());
            assert(needs_comma(st1.out));
            lemma_run_one(st1, comma, g);
            lemma_comma_dropped(st1, g(trim_spec(comma)));
            let st2 = machine_step(st1, comma, g(trim_spec(comma)));
            assert(st2 == st1);
            lemma_elems_run(st2, false, is_scalar(*val), *rest, g);
            if *rest is ENil {
                assert(machine_run(st, elems_frags(es), g).out =~= st.out + (if first {
                    elems_json(es, g)
                } else {
                    seq![','] + elems_json(es, g)
                }));
            } else {
                assert(elems_json(es, g) == json_of(*val, g) + seq![','] + elems_json(*rest, g));
                assert(machine_run(st, elems_frags(es), g).out =~= st.out + (if first {
                    elems_json(es, g)
                } else {
                    seq![','] + elems_json(es, g)
                }));
            }
        },
    }
}

/// Faithful transcoding: for any well-formed record value, made of strings,
/// booleans, numbers, nested records, lists and tuples in the shapes the
/// machine supports, running the canonical fragment stream from the initial
/// state produces exactly the minified JSON text of the value, with its
/// fields in emission order and each key passed through the renaming
/// policy, and leaves the machine in the state of a completed value.
pub proof fn theorem_record_transcodes(v: DebugValue, g: spec_fn(Seq<char>) -> Seq<char>)
    requires
        v is RecordVal,
        wf_value(v),
    ensures
        machine_run(init_model(), frags_of(v), g).out == json_of(v, g),
        machine_run(init_model(), frags_of(v), g).expecting == ts_after_value(),
{
    lemma_value_run(init_model(), v, g);
    assert(!needs_comma(init_model().out));
    assert(with_comma(init_model().out) + json_of(v, g) =~= json_of(v, g));
}

/// Round trip of the pascal-case policy: at every nesting depth, the key
/// rendered for a field is exactly the pascal-case transform of that
/// field's name, the same text the transform gives when applied to the
/// name string directly.
pub proof fn law_pascal_round_trip(v: DebugValue)
    requires
        v is RecordVal,
        wf_value(v),
    ensures
        machine_run(init_model(), frags_of(v), (|n: Seq<char>| pascal_of(n))).out == json_of(
            v,
            (|n: Seq<char>| pascal_of(n)),
        ),
{
    theorem_record_transcodes(v, (|n: Seq<char>| pascal_of(n)));
}

/// An empty sequence renders as `[]`: wherever a list or tuple may start,
/// an opening and a closing delimiter with nothing between them append
/// exactly the two brackets, after the comma owed to a completed sibling.
pub proof fn law_empty_sequence(st: AggModel, g: spec_fn(Seq<char>) -> Seq<char>)
    requires
        st.expecting.open_bracket,
        !st.expecting.string_body,
    ensures
        machine_run(
            st,
            frags_of(DebugValue::ListVal(Box::new(ElemSeq::ENil))),
            g,
        ).out == with_comma(st.out) + seq!['[', ']'],
        machine_run(
            st,
            frags_of(DebugValue::ListVal(Box::new(ElemSeq::ENil))),
            g,
        ).expecting == ts_after_value(),
{
    let v = DebugValue::ListVal(Box::new(ElemSeq::ENil));
    lemma_value_run(st, v, g);
    assert(elems_json(ElemSeq::ENil, g) =~= Seq::<char>::empty());
    assert(json_of(v, g) =~= seq!['[', ']']);
}

/// A variant's tag contributes nothing anywhere: in every state that is not
/// inside a string body, a capitalized tag fragment — nonempty, trimmed,
/// first character an uppercase ASCII letter, not readable as a number —
/// fails every classifier rule and is dropped without a state change. What
/// a tagged value's remaining fragments then produce is unspecified
/// best-effort output, never a JSON rendering of the variant's data.
pub proof fn law_variant_tag_dropped(st: AggModel, tag: Seq<char>, rn: Seq<char>)
    requires
        !st.expecting.string_body,
        wf_type_name(tag),
    ensures
        machine_step(st, tag, rn) == st,
{
    assert(is_ascii_upper(tag[0]));
}

/// The root must be a record: a stream in which no fragment trims to `{`
/// leaves the machine in its initial state, so any value whose rendering
/// never opens a brace, such as a tagged variant at the root, produces no
/// output at all.
pub proof fn law_root_must_open_brace(frags: Seq<Seq<char>>, g: spec_fn(Seq<char>) -> Seq<char>)
    requires
        forall|i: int| 0 <= i < frags.len() ==> trim_spec(#[trigger] frags[i]) != seq!['{'],
    ensures
        machine_run(init_model(), frags, g) == init_model(),
    decreases frags.len(),
{
    if frags.len() > 0 {
        assert(machine_step(init_model(), frags[0], g(trim_spec(frags[0]))) == init_model());
        assert(forall|i: int|
            0 <= i < frags.drop_first().len() ==> trim_spec(
                #[trigger] frags.drop_first()[i],
            ) != seq!['{']);
        law_root_must_open_brace(frags.drop_first(), g);
    }
}

} // verus!
