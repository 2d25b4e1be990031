//! The streaming state machine that turns debug-format fragments into
//! compact JSON: the set of token kinds expected next, the classifier that
//! matches one trimmed fragment against that set, and the transition that
//! appends to the output buffer.
use vstd::prelude::*;

verus! {

use crate::chars::{is_float_literal, is_ascii_upper, trim_spec};

/// The set of fragment kinds that are syntactically valid at the current
/// point of the output. Several kinds may be acceptable at once.
#[derive(Clone, Copy, PartialEq, Eq, Structural)]
pub struct TokenSet {
    pub open_brace: bool,
    pub close_brace: bool,
    pub open_bracket: bool,
    pub close_bracket: bool,
    pub colon: bool,
    pub string_start: bool,
    pub string_end: bool,
    pub string_body: bool,
    /// Carried alongside string bodies; no rule tests it, since the escape
    /// is recognized by the body rule on the lone-backslash fragment.
    pub escape_char: bool,
    pub field_name: bool,
    pub number: bool,
}

/// The rule a fragment matched, or `NoMatch` when it is dropped.
#[derive(Clone, Copy, PartialEq, Eq, Structural)]
pub enum Rule {
    OpenBrace,
    CloseBrace,
    OpenBracket,
    CloseBracket,
    Colon,
    StringStart,
    StringEnd,
    LitTrue,
    LitFalse,
    Number,
    BodyEscape,
    Body,
    Field,
    NoMatch,
}

/// The state of one transcoding run: the JSON text produced so far and the
/// token kinds acceptable next.
#[verifier::ext_equal]
pub struct AggModel {
    pub out: Seq<char>,
    pub expecting: TokenSet,
}

/// Before the first fragment only the opening brace of the root object is
/// acceptable.
pub open spec fn ts_init() -> TokenSet {
    TokenSet {
        open_brace: true,
        close_brace: false,
        open_bracket: false,
        close_bracket: false,
        colon: false,
        string_start: false,
        string_end: false,
        string_body: false,
        escape_char: false,
        field_name: false,
        number: false,
    }
}

/// Inside an object, right after its `{`: a field name or the closing brace.
pub open spec fn ts_fields() -> TokenSet {
    TokenSet {
        open_brace: false,
        close_brace: true,
        open_bracket: false,
        close_bracket: false,
        colon: false,
        string_start: false,
        string_end: false,
        string_body: false,
        escape_char: false,
        field_name: true,
        number: false,
    }
}

/// Right after a completed object, list or string: anything that may follow
/// a completed value.
pub open spec fn ts_after_value() -> TokenSet {
    TokenSet {
        open_brace: true,
        close_brace: true,
        open_bracket: true,
        close_bracket: true,
        colon: false,
        string_start: true,
        string_end: false,
        string_body: false,
        escape_char: false,
        field_name: true,
        number: false,
    }
}

/// Right after a completed boolean or number: anything that may follow a
/// completed value, and further scalars, which may follow in a list.
pub open spec fn ts_after_scalar() -> TokenSet {
    TokenSet {
        open_brace: true,
        close_brace: true,
        open_bracket: true,
        close_bracket: true,
        colon: false,
        string_start: true,
        string_end: false,
        string_body: false,
        escape_char: false,
        field_name: true,
        number: true,
    }
}

/// Inside a list or tuple, right after its opening delimiter.
pub open spec fn ts_in_list() -> TokenSet {
    TokenSet {
        open_brace: true,
        close_brace: false,
        open_bracket: true,
        close_bracket: true,
        colon: false,
        string_start: true,
        string_end: false,
        string_body: false,
        escape_char: false,
        field_name: false,
        number: true,
    }
}

/// After a field name: only its colon.
pub open spec fn ts_colon() -> TokenSet {
    TokenSet {
        open_brace: false,
        close_brace: false,
        open_bracket: false,
        close_bracket: false,
        colon: true,
        string_start: false,
        string_end: false,
        string_body: false,
        escape_char: false,
        field_name: false,
        number: false,
    }
}

/// After a colon: the value of the field.
pub open spec fn ts_value() -> TokenSet {
    TokenSet {
        open_brace: true,
        close_brace: false,
        open_bracket: true,
        close_bracket: false,
        colon: false,
        string_start: true,
        string_end: false,
        string_body: false,
        escape_char: false,
        field_name: false,
        number: true,
    }
}

/// Inside a quoted string: its body, an escape, or the closing quote.
pub open spec fn ts_in_string() -> TokenSet {
    TokenSet {
        open_brace: false,
        close_brace: false,
        open_bracket: false,
        close_bracket: false,
        colon: false,
        string_start: false,
        string_end: true,
        string_body: true,
        escape_char: true,
        field_name: false,
        number: false,
    }
}

/// Directly after a lone backslash inside a string: only more body text.
pub open spec fn ts_body_only() -> TokenSet {
    TokenSet {
        open_brace: false,
        close_brace: false,
        open_bracket: false,
        close_bracket: false,
        colon: false,
        string_start: false,
        string_end: false,
        string_body: true,
        escape_char: false,
        field_name: false,
        number: false,
    }
}

/// Whether the fragment may be taken as a field name: nothing, or anything
/// whose first character is not an uppercase ASCII letter. The exclusion
/// keeps capitalized tokens of unsupported shapes, such as variant tags and
/// type names, from being read as field names.
pub open spec fn fieldname_shape_ok(s: Seq<char>) -> bool {
    s.len() == 0 || !is_ascii_upper(s[0])
}

/// The classifier: the first rule, in order, that the trimmed fragment
/// matches against the expected token set, or `NoMatch`. A matched empty or
/// lone-comma fragment in field-name position is an artifact of the
/// renderer's own separators and is reported as `NoMatch` as well, since it
/// changes nothing.
pub open spec fn classify(e: TokenSet, s: Seq<char>) -> Rule {
    if e.open_brace && s == seq!['{'] {
        Rule::OpenBrace
    } else if e.close_brace && s == seq!['}'] {
        Rule::CloseBrace
    } else if e.open_bracket && (s == seq!['['] || s == seq!['(']) {
        Rule::OpenBracket
    } else if e.close_bracket && (s == seq![']'] || s == seq![')']) {
        Rule::CloseBracket
    } else if e.colon && s == seq![':'] {
        Rule::Colon
    } else if e.string_start && s == seq!['"'] {
        Rule::StringStart
    } else if e.string_end && s == seq!['"'] {
        Rule::StringEnd
    } else if e.number && s == seq!['t', 'r', 'u', 'e'] {
        Rule::LitTrue
    } else if e.number && s == seq!['f', 'a', 'l', 's', 'e'] {
        Rule::LitFalse
    } else if e.number && is_float_literal(s) {
        Rule::Number
    } else if e.string_body && s == seq!['\\'] {
        Rule::BodyEscape
    } else if e.string_body {
        Rule::Body
    } else if e.field_name && fieldname_shape_ok(s) && s.len() > 0 && s != seq![','] {
        Rule::Field
    } else {
        Rule::NoMatch
    }
}

/// The comma rule: a separating comma is owed exactly when the buffer ends
/// in something that closes a value, which is a closing quote, bracket or
/// brace, a digit, or the final `e` of `true` and `false`.
pub open spec fn needs_comma(out: Seq<char>) -> bool {
    out.len() > 0 && {
        let c = out.last();
        c == '"' || c == ']' || c == '}' || crate::chars::is_digit(c) || c == 'e'
    }
}

pub open spec fn with_comma(out: Seq<char>) -> Seq<char> {
    if needs_comma(out) {
        out.push(',')
    } else {
        out
    }
}

/// Before any fragment: an empty buffer, expecting the root object's `{`.
pub open spec fn init_model() -> AggModel {
    AggModel { out: Seq::empty(), expecting: ts_init() }
}

/// One transition of the aggregator on a raw fragment. `rn` is the renamed
/// form of the trimmed fragment; it matters only when the fragment is taken
/// as a field name.
pub open spec fn machine_step(st: AggModel, raw: Seq<char>, rn: Seq<char>) -> AggModel {
    let s = trim_spec(raw);
    match classify(st.expecting, s) {
        Rule::OpenBrace => AggModel { out: with_comma(st.out).push('{'), expecting: ts_fields() },
        Rule::CloseBrace => AggModel { out: st.out.push('}'), expecting: ts_after_value() },
        Rule::OpenBracket => AggModel {
            out: with_comma(st.out).push('['),
            expecting: ts_in_list(),
        },
        Rule::CloseBracket => AggModel { out: st.out.push(']'), expecting: ts_after_value() },
        Rule::Colon => AggModel { out: st.out, expecting: ts_value() },
        Rule::StringStart => AggModel {
            out: with_comma(st.out).push('"'),
            expecting: ts_in_string(),
        },
        Rule::StringEnd => AggModel { out: st.out.push('"'), expecting: ts_after_value() },
        Rule::LitTrue => AggModel {
            out: st.out + seq!['t', 'r', 'u', 'e'],
            expecting: ts_after_scalar(),
        },
        Rule::LitFalse => AggModel {
            out: st.out + seq!['f', 'a', 'l', 's', 'e'],
            expecting: ts_after_scalar(),
        },
        Rule::Number => AggModel { out: st.out + s, expecting: ts_after_scalar() },
        Rule::BodyEscape => AggModel {
            out: st.out + seq!['\\', '\\'],
            expecting: ts_body_only(),
        },
        Rule::Body => AggModel { out: st.out + s, expecting: ts_in_string() },
        Rule::Field => AggModel {
            out: with_comma(st.out) + seq!['"'] + rn + seq!['"', ':'],
            expecting: ts_colon(),
        },
        Rule::NoMatch => st,
    }
}

/// The whole run under a deterministic renaming policy `rename`, applied to
/// each fragment that is taken as a field name.
pub open spec fn machine_run(
    st: AggModel,
    frags: Seq<Seq<char>>,
    rename: spec_fn(Seq<char>) -> Seq<char>,
) -> AggModel
    decreases frags.len(),
{
    if frags.len() == 0 {
        st
    } else {
        machine_run(
            machine_step(st, frags[0], rename(trim_spec(frags[0]))),
            frags.drop_first(),
            rename,
        )
    }
}

/// What a caller-supplied renaming function may turn `name` into: some call
/// of `f` on `name` can return `out`.
pub open spec fn renames_to<F: Fn(&str) -> String>(f: F, name: Seq<char>, out: Seq<char>) -> bool {
    exists|s: &str, t: String| s@ == name && t@ == out && call_ensures(f, (s,), t)
}

/// One transition under a caller-supplied renaming function: when the
/// fragment is taken as a field name, the appended key is some possible
/// result of `f` on the trimmed fragment.
pub open spec fn feed_rel<F: Fn(&str) -> String>(
    f: F,
    pre: AggModel,
    raw: Seq<char>,
    post: AggModel,
) -> bool {
    if classify(pre.expecting, trim_spec(raw)) is Field {
        exists|rn: Seq<char>| renames_to(f, trim_spec(raw), rn) && post == machine_step(
            pre,
            raw,
            rn,
        )
    } else {
        post == machine_step(pre, raw, Seq::empty())
    }
}

/// A whole run under a caller-supplied renaming function.
pub open spec fn run_rel<F: Fn(&str) -> String>(
    f: F,
    pre: AggModel,
    frags: Seq<Seq<char>>,
    post: AggModel,
) -> bool
    decreases frags.len(),
{
    if frags.len() == 0 {
        post == pre
    } else {
        exists|mid: AggModel|
            #[trigger] feed_rel(f, pre, frags[0], mid) && run_rel(f, mid, frags.drop_first(), post)
    }
}

/// A relational run extends by one fragment at its end.
pub proof fn lemma_run_rel_snoc<F: Fn(&str) -> String>(
    f: F,
    pre: AggModel,
    frags: Seq<Seq<char>>,
    mid: AggModel,
    raw: Seq<char>,
    post: AggModel,
)
    requires
        run_rel(f, pre, frags, mid),
        feed_rel(f, mid, raw, post),
    ensures
        run_rel(f, pre, frags.push(raw), post),
    decreases frags.len(),
{
    if frags.len() == 0 {
        assert(frags.push(raw)[0] == raw);
        assert(frags.push(raw).drop_first() =~= Seq::<Seq<char>>::empty());
        assert(pre == mid);
        assert(run_rel(f, post, frags.push(raw).drop_first(), post));
        assert(feed_rel(f, pre, frags.push(raw)[0], post));
    } else {
        let m1 = choose|m1: AggModel|
            #[trigger] feed_rel(f, pre, frags[0], m1) && run_rel(f, m1, frags.drop_first(), mid);
        lemma_run_rel_snoc(f, m1, frags.drop_first(), mid, raw, post);
        assert(frags.push(raw)[0] == frags[0]);
        assert(frags.push(raw).drop_first() =~= frags.drop_first().push(raw));
        assert(feed_rel(f, pre, frags.push(raw)[0], m1) && run_rel(
            f,
            m1,
            frags.push(raw).drop_first(),
            post,
        ));
    }
}

/// A renaming function whose every result is fixed by the spec function `g`
/// makes the run deterministic: the relational run pins the same state that
/// the functional run builds.
pub proof fn lemma_run_rel_deterministic<F: Fn(&str) -> String>(
    f: F,
    g: spec_fn(Seq<char>) -> Seq<char>,
    pre: AggModel,
    frags: Seq<Seq<char>>,
    post: AggModel,
)
    requires
        run_rel(f, pre, frags, post),
        forall|s: &str, t: String| call_ensures(f, (s,), t) ==> t@ == g(s@),
    ensures
        post == machine_run(pre, frags, g),
    decreases frags.len(),
{
    if frags.len() > 0 {
        let mid = choose|mid: AggModel|
            #[trigger] feed_rel(f, pre, frags[0], mid) && run_rel(
                f,
                mid,
                frags.drop_first(),
                post,
            );
        if classify(pre.expecting, trim_spec(frags[0])) is Field {
            let rn = choose|rn: Seq<char>|
                renames_to(f, trim_spec(frags[0]), rn) && mid == machine_step(pre, frags[0], rn);
            assert(rn == g(trim_spec(frags[0]))) by {
                let (s, t) = choose|s: &str, t: String|
                    s@ == trim_spec(frags[0]) && t@ == rn && call_ensures(f, (s,), t);
            }
        } else {
            assert(mid == machine_step(pre, frags[0], g(trim_spec(frags[0])))) by {
                assert(machine_step(pre, frags[0], g(trim_spec(frags[0]))) == machine_step(
                    pre,
                    frags[0],
                    Seq::empty(),
                ));
            }
        }
        lemma_run_rel_deterministic(f, g, mid, frags.drop_first(), post);
    }
}

} // verus!
