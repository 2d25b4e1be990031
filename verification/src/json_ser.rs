//! The executable aggregator and the public entry points. A caller feeds the
//! aggregator the text fragments of a pretty debug rendering, one at a time
//! and in emission order; the aggregator owns the growing JSON buffer and
//! follows the state machine of `crate::machine` exactly.
use vstd::prelude::*;

verus! {

use vstd::string::StringExecFns;
use crate::chars::{
    keep_as_is,
    pascal_case,
    pascal_of,
    push_char,
    str_eq,
    is_float_fragment,
    is_digit_char,
    trim_fragment,
};
use crate::machine::{
    AggModel,
    Rule,
    TokenSet,
    classify,
    feed_rel,
    fieldname_shape_ok,
    init_model,
    machine_run,
    renames_to,
    run_rel,
    lemma_run_rel_deterministic,
    lemma_run_rel_snoc,
    ts_after_scalar,
    ts_after_value,
    ts_body_only,
    ts_colon,
    ts_fields,
    ts_in_list,
    ts_in_string,
    ts_init,
    ts_value,
    with_comma,
};

/// Whether the fragment is exactly the one given character.
fn is_one_char(s: &str, c: char) -> (r: bool)
    ensures
        r == (s@ == seq![c]),
{
    let n = s.unicode_len();
    if n != 1 {
        return false;
    }
    let c0 = s.get_char(0);
    proof {
        assert(s@ =~= seq![c0]);
    }
    c0 == c
}

/// Whether the fragment may be read as a field name: empty, or starting with
/// anything but an uppercase ASCII letter.
pub fn fieldname_does_not_start_with_capital(n: &str) -> (r: bool)
    ensures
        r == fieldname_shape_ok(n@),
{
    if n.unicode_len() == 0 {
        return true;
    }
    let c = n.get_char(0);
    !('A' <= c && c <= 'Z')
}

/// The classifier on a trimmed fragment: the first matching rule, in order.
pub fn classify_fragment(e: TokenSet, s: &str) -> (r: Rule)
    ensures
        r == classify(e, s@),
{
    proof {
        reveal_strlit("true");
        reveal_strlit("false");
        assert("true"@ =~= seq!['t', 'r', 'u', 'e']);
        assert("false"@ =~= seq!['f', 'a', 'l', 's', 'e']);
    }
    if e.open_brace && is_one_char(s, '{') {
        Rule::OpenBrace
    } else if e.close_brace && is_one_char(s, '}') {
        Rule::CloseBrace
    } else if e.open_bracket && (is_one_char(s, '[') || is_one_char(s, '(')) {
        Rule::OpenBracket
    } else if e.close_bracket && (is_one_char(s, ']') || is_one_char(s, ')')) {
        Rule::CloseBracket
    } else if e.colon && is_one_char(s, ':') {
        Rule::Colon
    } else if e.string_start && is_one_char(s, '"') {
        Rule::StringStart
    } else if e.string_end && is_one_char(s, '"') {
        Rule::StringEnd
    } else if e.number && str_eq(s, "true") {
        Rule::LitTrue
    } else if e.number && str_eq(s, "false") {
        Rule::LitFalse
    } else if e.number && is_float_fragment(s) {
        Rule::Number
    } else if e.string_body && is_one_char(s, '\\') {
        Rule::BodyEscape
    } else if e.string_body {
        Rule::Body
    } else if e.field_name && fieldname_does_not_start_with_capital(s) && s.unicode_len() != 0
        && !is_one_char(s, ',') {
        Rule::Field
    } else {
        Rule::NoMatch
    }
}

/// Appends the separating comma owed by the comma rule: one is added exactly
/// when the buffer ends in a closing quote, bracket or brace, a digit, or
/// the letter `e`.
pub fn add_comma(s: &mut String)
    ensures
        final(s)@ == with_comma(old(s)@),
{
    let n = s.as_str().unicode_len();
    if n > 0 {
        let c = s.as_str().get_char(n - 1);
        if c == '"' || c == ']' || c == '}' || is_digit_char(c) || c == 'e' {
            push_char(s, ',');
        }
    }
}

fn set_init() -> (r: TokenSet)
    ensures
        r == ts_init(),
{
    TokenSet {
        open_brace: true,
        close_brace: false,
        open_bracket: false,
        close_bracket: false,
        colon: false,
        string_start: false,
        string_end: false,
        string_body: false,
        escape_char: false,
        field_name: false,
        number: false,
    }
}

fn set_fields() -> (r: TokenSet)
    ensures
        r == ts_fields(),
{
    TokenSet {
        open_brace: false,
        close_brace: true,
        open_bracket: false,
        close_bracket: false,
        colon: false,
        string_start: false,
        string_end: false,
        string_body: false,
        escape_char: false,
        field_name: true,
        number: false,
    }
}

fn set_after_value() -> (r: TokenSet)
    ensures
        r == ts_after_value(),
{
    TokenSet {
        open_brace: true,
        close_brace: true,
        open_bracket: true,
        close_bracket: true,
        colon: false,
        string_start: true,
        string_end: false,
        string_body: false,
        escape_char: false,
        field_name: true,
        number: false,
    }
}

fn set_after_scalar() -> (r: TokenSet)
    ensures
        r == ts_after_scalar(),
{
    TokenSet {
        open_brace: true,
        close_brace: true,
        open_bracket: true,
        close_bracket: true,
        colon: false,
        string_start: true,
        string_end: false,
        string_body: false,
        escape_char: false,
        field_name: true,
        number: true,
    }
}

fn set_in_list() -> (r: TokenSet)
    ensures
        r == ts_in_list(),
{
    TokenSet {
        open_brace: true,
        close_brace: false,
        open_bracket: true,
        close_bracket: true,
        colon: false,
        string_start: true,
        string_end: false,
        string_body: false,
        escape_char: false,
        field_name: false,
        number: true,
    }
}

fn set_colon() -> (r: TokenSet)
    ensures
        r == ts_colon(),
{
    TokenSet {
        open_brace: false,
        close_brace: false,
        open_bracket: false,
        close_bracket: false,
        colon: true,
        string_start: false,
        string_end: false,
        string_body: false,
        escape_char: false,
        field_name: false,
        number: false,
    }
}

fn set_value() -> (r: TokenSet)
    ensures
        r == ts_value(),
{
    TokenSet {
        open_brace: true,
        close_brace: false,
        open_bracket: true,
        close_bracket: false,
        colon: false,
        string_start: true,
        string_end: false,
        string_body: false,
        escape_char: false,
        field_name: false,
        number: true,
    }
}

fn set_in_string() -> (r: TokenSet)
    ensures
        r == ts_in_string(),
{
    TokenSet {
        open_brace: false,
        close_brace: false,
        open_bracket: false,
        close_bracket: false,
        colon: false,
        string_start: false,
        string_end: true,
        string_body: true,
        escape_char: true,
        field_name: false,
        number: false,
    }
}

fn set_body_only() -> (r: TokenSet)
    ensures
        r == ts_body_only(),
{
    TokenSet {
        open_brace: false,
        close_brace: false,
        open_bracket: false,
        close_bracket: false,
        colon: false,
        string_start: false,
        string_end: false,
        string_body: true,
        escape_char: false,
        field_name: false,
        number: false,
    }
}

/// The streaming aggregator: the JSON text built so far, the token kinds
/// expected next, and the field renaming policy for this run.
pub struct JsonCommandAggregator<F: Fn(&str) -> String> {
    pub current: String,
    pub expecting: TokenSet,
    pub rename_field: F,
}

impl<F: Fn(&str) -> String> View for JsonCommandAggregator<F> {
    type V = AggModel;

    open spec fn view(&self) -> AggModel {
        AggModel { out: self.current@, expecting: self.expecting }
    }
}

impl<F: Fn(&str) -> String> JsonCommandAggregator<F> {
    /// A fresh aggregator: empty buffer, expecting the root `{`.
    pub fn new(rename_field: F) -> (r: Self)
        ensures
            r@ == init_model(),
            r.rename_field == rename_field,
    {
        let r = JsonCommandAggregator { current: String::new(), expecting: set_init(), rename_field };
        proof {
            assert(r@ =~= init_model());
        }
        r
    }

    /// Feeds one fragment: the fragment is trimmed, classified against the
    /// expected set, and either appended (with the owed comma and quoting)
    /// or dropped without any state change. Never fails.
    pub fn feed(&mut self, fragment: &str)
        requires
            forall|s: &str| call_requires(old(self).rename_field, (s,)),
        ensures
            final(self).rename_field == old(self).rename_field,
            feed_rel(old(self).rename_field, old(self)@, fragment@, final(self)@),
    {
        let t = trim_fragment(fragment);
        let rule = classify_fragment(self.expecting, t);
        match rule {
            Rule::OpenBrace => {
                add_comma(&mut self.current);
                push_char(&mut self.current, '{');
                self.expecting = set_fields();
            },
            Rule::CloseBrace => {
                push_char(&mut self.current, '}');
                self.expecting = set_after_value();
            },
            Rule::OpenBracket => {
                add_comma(&mut self.current);
                push_char(&mut self.current, '[');
                self.expecting = set_in_list();
            },
            Rule::CloseBracket => {
                push_char(&mut self.current, ']');
                self.expecting = set_after_value();
            },
            Rule::Colon => {
                self.expecting = set_value();
            },
            Rule::StringStart => {
                add_comma(&mut self.current);
                push_char(&mut self.current, '"');
                self.expecting = set_in_string();
            },
            Rule::StringEnd => {
                push_char(&mut self.current, '"');
                self.expecting = set_after_value();
            },
            Rule::LitTrue => {
                self.current.append("true");
                self.expecting = set_after_scalar();
                proof {
                    reveal_strlit("true");
                    assert("true"@ =~= seq!['t', 'r', 'u', 'e']);
                }
            },
            Rule::LitFalse => {
                self.current.append("false");
                self.expecting = set_after_scalar();
                proof {
                    reveal_strlit("false");
                    assert("false"@ =~= seq!['f', 'a', 'l', 's', 'e']);
                }
            },
            Rule::Number => {
                self.current.append(t);
                self.expecting = set_after_scalar();
            },
            Rule::BodyEscape => {
                self.current.append("\\\\");
                self.expecting = set_body_only();
                proof {
                    reveal_strlit("\\\\");
                    assert("\\\\"@ =~= seq!['\\', '\\']);
                }
            },
            Rule::Body => {
                self.current.append(t);
                self.expecting = set_in_string();
            },
            Rule::Field => {
                let renamed = (self.rename_field)(t);
                add_comma(&mut self.current);
                push_char(&mut self.current, '"');
                self.current.append(renamed.as_str());
                push_char(&mut self.current, '"');
                push_char(&mut self.current, ':');
                self.expecting = set_colon();
                proof {
                    assert(renames_to(old(self).rename_field, t@, renamed@));
                    assert(self@.out =~= with_comma(old(self)@.out) + seq!['"'] + renamed@ + seq![
                        '"',
                        ':',
                    ]);
                    assert(self@ == crate::machine::machine_step(old(self)@, fragment@, renamed@));
                    assert(feed_rel(old(self).rename_field, old(self)@, fragment@, self@));
                }
            },
            Rule::NoMatch => {
            },
        }
    }

    /// Hands the accumulated buffer to the caller; meaningful once the root
    /// object has been closed, but callable at any point.
    pub fn finalize(self) -> (r: String)
        ensures
            r@ == self@.out,
    {
        self.current
    }
}

/// Runs a fresh aggregator over the fragments, in order, under the given
/// renaming function. The result is the state machine's output, with each
/// accepted field name replaced by what `rename_fn` returned for it.
pub fn serialize_with_renamed_fields<F: Fn(&str) -> String>(
    fragments: &Vec<String>,
    rename_fn: F,
) -> (r: String)
    requires
        forall|s: &str| #[trigger] call_requires(rename_fn, (s,)),
    ensures
        exists|m: AggModel|
            #[trigger] run_rel(rename_fn, init_model(), fragments.deep_view(), m) && r@ == m.out,
{
    let ghost f = rename_fn;
    let mut agg = JsonCommandAggregator::new(rename_fn);
    let n = fragments.len();
    let mut i: usize = 0;
    proof {
        assert(fragments.deep_view().take(0) =~= Seq::<Seq<char>>::empty());
    }
    while i < n
        invariant
            0 <= i <= n,
            n == fragments@.len(),
            agg.rename_field == f,
            forall|s: &str| #[trigger] call_requires(f, (s,)),
            run_rel(f, init_model(), fragments.deep_view().take(i as int), agg@),
        decreases n - i,
    {
        let ghost pre = agg@;
        agg.feed(fragments[i].as_str());
        proof {
            lemma_run_rel_snoc(
                f,
                init_model(),
                fragments.deep_view().take(i as int),
                pre,
                fragments@[i as int]@,
                agg@,
            );
            assert(fragments.deep_view().take(i as int).push(fragments@[i as int]@)
                =~= fragments.deep_view().take(i as int + 1));
        }
        i += 1;
    }
    proof {
        assert(fragments.deep_view().take(n as int) =~= fragments.deep_view());
    }
    let ghost m = agg@;
    let r = agg.finalize();
    proof {
        assert(run_rel(f, init_model(), fragments.deep_view(), m) && r@ == m.out);
    }
    r
}

/// Transcodes the fragments with fields kept under their own names: the
/// result is exactly the state machine's output under the identity renaming.
/// When the fragments are the canonical rendering of a well-formed record
/// value, that output is exactly the value's minified JSON, fields in
/// emission order; see `crate::laws::theorem_record_transcodes`.
pub fn serialize(fragments: &Vec<String>) -> (r: String)
    ensures
        r@ == machine_run(init_model(), fragments.deep_view(), (|n: Seq<char>| n)).out,
{
    let r = serialize_with_renamed_fields(fragments, keep_as_is);
    proof {
        let m = choose|m: AggModel|
            #[trigger] run_rel(keep_as_is, init_model(), fragments.deep_view(), m) && r@ == m.out;
        lemma_run_rel_deterministic(
            keep_as_is,
            (|n: Seq<char>| n),
            init_model(),
            fragments.deep_view(),
            m,
        );
    }
    r
}

/// Transcodes the fragments with every field name turned to pascal case:
/// the result is exactly the state machine's output under the pascal-case
/// renaming, so each rendered key is the transform applied directly to the
/// source name, at any nesting depth; see
/// `crate::laws::law_pascal_round_trip`.
pub fn serialize_with_pascal_case(fragments: &Vec<String>) -> (r: String)
    ensures
        r@ == machine_run(init_model(), fragments.deep_view(), (|n: Seq<char>| pascal_of(n))).out,
{
    let r = serialize_with_renamed_fields(fragments, pascal_case);
    proof {
        let m = choose|m: AggModel|
            #[trigger] run_rel(pascal_case, init_model(), fragments.deep_view(), m) && r@ == m.out;
        lemma_run_rel_deterministic(
            pascal_case,
            (|n: Seq<char>| pascal_of(n)),
            init_model(),
            fragments.deep_view(),
            m,
        );
    }
    r
}

} // verus!
