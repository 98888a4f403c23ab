use vstd::prelude::*;

use evalexpr::{
    eval_boolean_with_context, eval_with_context, eval_with_context_mut,
    ContextWithMutableVariables, HashMapContext, Value,
};
use regex::Regex;

use crate::text::{contains_text, is_substring};

verus! {

#[verifier::external_type_specification]
#[verifier::external_body]
pub struct ExHashMapContext(HashMapContext);

#[verifier::external_type_specification]
#[verifier::external_body]
pub struct ExValue(Value);

/// Relies on evalexpr's `HashMapContext::new`: a context with no variables.
pub assume_specification[ HashMapContext::new ]() -> HashMapContext;

/// The pattern of an interpolation token: `$` with a braced expression, or `$`
/// with a bare run of characters up to a word boundary.
pub const TOKEN_PATTERN: &'static str = r"\$(?:\{(.+?)}|(.+?)\b)";

/// The variable that holds the last line of input.
pub const LAST_INPUT_NAME: &'static str = "last_in";

/// The matches of `pattern` in `text`, in order: the whole match and the text
/// of the first capture group that took part.
pub uninterp spec fn pattern_matches(pattern: Seq<char>, text: Seq<char>) -> Seq<(Seq<char>, Seq<char>)>;

/// The pieces of `text` between the matches of `pattern`, in order.
pub uninterp spec fn pattern_gaps(pattern: Seq<char>, text: Seq<char>) -> Seq<Seq<char>>;

pub open spec fn pair_views(v: Seq<(String, String)>) -> Seq<(Seq<char>, Seq<char>)> {
    v.map_values(|p: (String, String)| (p.0@, p.1@))
}

pub open spec fn string_views(v: Seq<String>) -> Seq<Seq<char>> {
    v.map_values(|s: String| s@)
}

/// The whole texts of the matches.
pub open spec fn wholes(matches: Seq<(Seq<char>, Seq<char>)>) -> Seq<Seq<char>> {
    matches.map_values(|m: (Seq<char>, Seq<char>)| m.0)
}

/// Relies on regex's `Regex::captures_iter`: the successive non-overlapping
/// matches, each with its whole text and the first group that matched. An
/// invalid pattern has no matches.
#[verifier::external_body]
fn find_tokens(pattern: &str, text: &str) -> (r: Vec<(String, String)>)
    ensures
        pair_views(r@) == pattern_matches(pattern@, text@),
        pattern_gaps(pattern@, text@).len() == r@.len() + 1,
        pattern@ == TOKEN_PATTERN@ ==> forall|i: int| 0 <= i < r@.len() ==> (#[trigger] r@[i]).0@.len() > 0 && r@[i].0@[0] == '$',
{
    match Regex::new(pattern) {
        Ok(re) => re
            .captures_iter(text)
            .map(|c| {
                let whole = c.get(0).map_or("", |m| m.as_str());
                let body = c.get(1).or_else(|| c.get(2)).map_or("", |m| m.as_str());
                (whole.to_string(), body.to_string())
            })
            .collect(),
        Err(_) => Vec::new(),
    }
}

/// Relies on regex's `Regex::split`: the pieces between the matches, one more
/// than there are matches. With an invalid pattern, the whole text.
#[verifier::external_body]
fn split_tokens(pattern: &str, text: &str) -> (r: Vec<String>)
    ensures
        string_views(r@) == pattern_gaps(pattern@, text@),
        r@.len() == pattern_matches(pattern@, text@).len() + 1,
        interleave(string_views(r@), wholes(pattern_matches(pattern@, text@)), pattern_matches(pattern@, text@).len()) == text@,
{
    match Regex::new(pattern) {
        Ok(re) => re.split(text).map(|s| s.to_string()).collect(),
        Err(_) => vec![text.to_string()],
    }
}

/// The value evalexpr gives `expr` under the variables of `ctx`; `None`
/// where it cannot be evaluated.
pub uninterp spec fn evaluated(expr: Seq<char>, ctx: HashMapContext) -> Option<Value>;

/// The truth evalexpr gives `expr` under `ctx`; `None` where it does not
/// evaluate to a boolean.
pub uninterp spec fn evaluated_bool(expr: Seq<char>, ctx: HashMapContext) -> Option<bool>;

/// Whether evalexpr evaluates `expr`, which may assign variables, without
/// error, and the variables it leaves.
pub uninterp spec fn evaluated_mut(expr: Seq<char>, ctx: HashMapContext) -> (bool, HashMapContext);

/// The variables of `ctx` with `name` bound to the string `text`; `None`
/// where `name` already holds a value of another type.
pub uninterp spec fn with_string(ctx: HashMapContext, name: Seq<char>, text: Seq<char>) -> Option<HashMapContext>;

/// The text of a value: a string as it is, any other value as it displays.
pub uninterp spec fn value_text(v: Value) -> Seq<char>;

/// The string value holding `text`.
pub uninterp spec fn string_value_of(text: Seq<char>) -> Value;

/// An expression that can name none of the builtin functions that panic on
/// some arguments (`str::substring` off a character boundary, `shl` and
/// `shr` past the width of an integer, `math::abs` of the least integer).
/// The evaluator reads an identifier as one run of characters, joining the
/// runs on both sides of a comment, so an expression without comments names
/// a builtin only by writing its name out. Other expressions are not handed
/// to the evaluator: they count as failing.
pub open spec fn safe_expression(e: Seq<char>) -> bool {
    &&& !is_substring("/*"@, e)
    &&& !is_substring("//"@, e)
    &&& !is_substring("str::substring"@, e)
    &&& !is_substring("math::abs"@, e)
    &&& !is_substring("shl"@, e)
    &&& !is_substring("shr"@, e)
}

/// Whether `e` may be handed to the evaluator.
pub fn is_safe_expression(e: &str) -> (r: bool)
    ensures
        r == safe_expression(e@),
{
    !contains_text(e, "/*") && !contains_text(e, "//") && !contains_text(e, "str::substring")
        && !contains_text(e, "math::abs") && !contains_text(e, "shl") && !contains_text(e, "shr")
}

/// The value of `expr` under `ctx`, where it is evaluated and succeeds.
pub open spec fn spec_evaluate(expr: Seq<char>, ctx: HashMapContext) -> Option<Value> {
    if safe_expression(expr) {
        evaluated(expr, ctx)
    } else {
        None
    }
}

/// `expr` is evaluated and gives true under `ctx`.
pub open spec fn condition_holds(expr: Seq<char>, ctx: HashMapContext) -> bool {
    safe_expression(expr) && evaluated_bool(expr, ctx) == Some(true)
}

/// Whether a `let` of `expr` succeeds under `ctx`, and the variables after it.
pub open spec fn let_outcome(expr: Seq<char>, ctx: HashMapContext) -> (bool, HashMapContext) {
    if safe_expression(expr) {
        evaluated_mut(expr, ctx)
    } else {
        (false, ctx)
    }
}

/// The text a token's body renders to under `ctx`, where it evaluates.
pub open spec fn token_rendered(body: Seq<char>, ctx: HashMapContext) -> Option<Seq<char>> {
    match spec_evaluate(body, ctx) {
        Some(v) => Some(value_text(v)),
        None => None,
    }
}

/// Relies on evalexpr's `eval_with_context`: the result depends on the
/// expression and the variables alone.
#[verifier::external_body]
fn evaluate(expr: &str, ctx: &HashMapContext) -> (r: Option<Value>)
    requires
        safe_expression(expr@),
    ensures
        r == evaluated(expr@, *ctx),
{
    eval_with_context(expr, ctx).ok()
}

/// Relies on evalexpr's `eval_boolean_with_context`.
#[verifier::external_body]
fn evaluate_boolean(expr: &str, ctx: &HashMapContext) -> (r: Option<bool>)
    requires
        safe_expression(expr@),
    ensures
        r == evaluated_bool(expr@, *ctx),
{
    eval_boolean_with_context(expr, ctx).ok()
}

/// Relies on evalexpr's `eval_with_context_mut`: evaluates `expr`, which may
/// assign variables of `ctx`.
#[verifier::external_body]
fn evaluate_mut(expr: &str, ctx: &mut HashMapContext) -> (r: bool)
    requires
        safe_expression(expr@),
    ensures
        r == evaluated_mut(expr@, *old(ctx)).0,
        *final(ctx) == evaluated_mut(expr@, *old(ctx)).1,
{
    eval_with_context_mut(expr, ctx).is_ok()
}

/// Relies on evalexpr's `ContextWithMutableVariables::set_value`, which
/// changes nothing where it fails.
#[verifier::external_body]
fn bind_string(ctx: &mut HashMapContext, name: &str, text: &str) -> (r: bool)
    ensures
        r == with_string(*old(ctx), name@, text@) is Some,
        r ==> *final(ctx) == with_string(*old(ctx), name@, text@)->Some_0,
        !r ==> *final(ctx) == *old(ctx),
{
    ctx.set_value(name.to_string(), Value::String(text.to_string())).is_ok()
}

/// Relies on evalexpr's `Value::String`.
#[verifier::external_body]
fn string_value(text: &str) -> (r: Value)
    ensures
        r == string_value_of(text@),
{
    Value::String(text.to_string())
}

/// Text spliced into an interpolated string in place of one token: the
/// rendered value, or the token's own body where evaluation failed.
pub open spec fn token_text(rendered: Option<Seq<char>>, body: Seq<char>) -> Seq<char> {
    match rendered {
        Some(t) => t,
        None => body,
    }
}

/// The text for each token, from what its evaluation rendered.
pub open spec fn token_texts(
    rendered: Seq<Option<Seq<char>>>,
    matches: Seq<(Seq<char>, Seq<char>)>,
) -> Seq<Seq<char>> {
    Seq::new(rendered.len(), |i: int| token_text(rendered[i], matches[i].1))
}

/// `gaps[0] + texts[0] + gaps[1] + ... + texts[n-1] + gaps[n]`, for the first
/// `n` texts.
pub open spec fn interleave(gaps: Seq<Seq<char>>, texts: Seq<Seq<char>>, n: nat) -> Seq<char>
    decreases n,
{
    if n == 0 {
        gaps[0]
    } else {
        interleave(gaps, texts, (n - 1) as nat) + texts[n - 1] + gaps[n as int]
    }
}

/// The variables and the last line of input of a running script.
pub struct RuntimeState {
    pub last_in: String,
    pub context: HashMapContext,
}

impl RuntimeState {
    /// A state with no input read yet and no variables.
    pub fn new() -> (r: RuntimeState)
        ensures
            r.last_in@ == Seq::<char>::empty(),
    {
        RuntimeState { last_in: String::new(), context: HashMapContext::new() }
    }

    /// Stores `line` as the last input and binds it to the variable
    /// `last_in`; false where that variable already holds another type, which
    /// then keeps its value.
    pub fn update_input(&mut self, line: String) -> (bound: bool)
        ensures
            final(self).last_in@ == line@,
            bound == with_string(old(self).context, LAST_INPUT_NAME@, line@) is Some,
            bound ==> final(self).context == with_string(old(self).context, LAST_INPUT_NAME@, line@)->Some_0,
            !bound ==> final(self).context == old(self).context,
    {
        let bound = bind_string(&mut self.context, LAST_INPUT_NAME, line.as_str());
        self.last_in = line;
        bound
    }

    /// The value of `val` under the variables; the text itself as a string
    /// where it cannot be evaluated.
    pub fn expand(&self, val: &str) -> (r: Value)
        ensures
            r == match spec_evaluate(val@, self.context) {
                Some(v) => v,
                None => string_value_of(val@),
            },
    {
        let got = if is_safe_expression(val) {
            evaluate(val, &self.context)
        } else {
            None
        };
        match got {
            Some(v) => v,
            None => string_value(val),
        }
    }

    /// Relies on evalexpr's `Value`: a string value as its raw text, any other
    /// value through its `Display`.
    #[verifier::external_body]
    pub fn val_to_string(val: Value) -> (r: String)
        ensures
            r@ == value_text(val),
    {
        match val {
            Value::String(s) => s,
            other => other.to_string(),
        }
    }

    /// `gaps` and `texts` spliced together: the template rebuilt with each
    /// token replaced by its text.
    pub fn splice(gaps: &Vec<String>, texts: &Vec<String>) -> (r: String)
        requires
            gaps@.len() == texts@.len() + 1,
        ensures
            r@ == interleave(string_views(gaps@), string_views(texts@), texts@.len()),
    {
        let mut out = gaps[0].clone();
        let mut k: usize = 0;
        while k < texts.len()
            invariant
                gaps@.len() == texts@.len() + 1,
                k <= texts@.len(),
                out@ == interleave(string_views(gaps@), string_views(texts@), k as nat),
            decreases texts.len() - k,
        {
            out.append(texts[k].as_str());
            out.append(gaps[k + 1].as_str());
            k = k + 1;
        }
        out
    }

    /// The template with each `$name` or `${expr}` token replaced, left to
    /// right and without rescanning, by the text of its value; a token whose
    /// expression fails to evaluate is replaced by its own body.
    pub fn expand_string(&self, val: &str) -> (r: String)
        ensures
            r@ == expansion(val@, self.context),
            (forall|i: int| 0 <= i < val@.len() ==> val@[i] != '$') ==> r@ == val@,
    {
        let tokens = find_tokens(TOKEN_PATTERN, val);
        let gaps = split_tokens(TOKEN_PATTERN, val);
        let ghost matches = pattern_matches(TOKEN_PATTERN@, val@);
        let ghost rendered = Seq::new(matches.len(), |i: int| token_rendered(matches[i].1, self.context));
        let mut texts: Vec<String> = Vec::new();
        let mut k: usize = 0;
        while k < tokens.len()
            invariant
                k <= tokens@.len(),
                pair_views(tokens@) == matches,
                rendered == Seq::new(matches.len(), |i: int| token_rendered(matches[i].1, self.context)),
                texts@.len() == k,
                forall|i: int| 0 <= i < k ==> #[trigger] texts@[i]@ == token_text(rendered[i], matches[i].1),
            decreases tokens.len() - k,
        {
            assert(matches[k as int] == (tokens@[k as int].0@, tokens@[k as int].1@));
            let body = tokens[k].1.as_str();
            let got = if is_safe_expression(body) {
                evaluate(body, &self.context)
            } else {
                None
            };
            let text = match got {
                Some(v) => Self::val_to_string(v),
                None => tokens[k].1.clone(),
            };
            texts.push(text);
            k = k + 1;
        }
        let r = Self::splice(&gaps, &texts);
        assert(string_views(texts@) =~= token_texts(rendered, matches));
        proof {
            if forall|i: int| 0 <= i < val@.len() ==> val@[i] != '$' {
                assert forall|i: int| 0 <= i < matches.len() implies (#[trigger] matches[i]).0.len() > 0 && matches[i].0[0] == '$' by {
                    assert(matches[i] == (tokens@[i].0@, tokens@[i].1@));
                }
                lemma_no_token_unchanged(val@, self.context);
            }
        }
        r
    }

    /// Evaluates `expr` for its assignments to the variables; false where it
    /// failed, or was not evaluated.
    pub fn var_expr(&mut self, expr: &str) -> (ok: bool)
        ensures
            ok == let_outcome(expr@, old(self).context).0,
            final(self).context == let_outcome(expr@, old(self).context).1,
            final(self).last_in == old(self).last_in,
    {
        if is_safe_expression(expr) {
            evaluate_mut(expr, &mut self.context)
        } else {
            false
        }
    }

    /// The truth of `expr`; false where it does not evaluate to a boolean.
    pub fn var_condition(&self, expr: &str) -> (r: bool)
        ensures
            r == condition_holds(expr@, self.context),
    {
        if !is_safe_expression(expr) {
            return false;
        }
        match evaluate_boolean(expr, &self.context) {
            Some(b) => b,
            None => false,
        }
    }
}

/// A template with no `$` has no token, and interpolates to itself.
proof fn lemma_no_token_unchanged(template: Seq<char>, ctx: HashMapContext)
    requires
        forall|i: int| 0 <= i < template.len() ==> template[i] != '$',
        pattern_gaps(TOKEN_PATTERN@, template).len() == pattern_matches(TOKEN_PATTERN@, template).len() + 1,
        interleave(pattern_gaps(TOKEN_PATTERN@, template), wholes(pattern_matches(TOKEN_PATTERN@, template)),
            pattern_matches(TOKEN_PATTERN@, template).len()) == template,
        forall|i: int| 0 <= i < pattern_matches(TOKEN_PATTERN@, template).len()
            ==> (#[trigger] pattern_matches(TOKEN_PATTERN@, template)[i]).0.len() > 0
                && pattern_matches(TOKEN_PATTERN@, template)[i].0[0] == '$',
    ensures
        pattern_matches(TOKEN_PATTERN@, template).len() == 0,
        expansion(template, ctx) == template,
{
    let m = pattern_matches(TOKEN_PATTERN@, template);
    let g = pattern_gaps(TOKEN_PATTERN@, template);
    let n = m.len();
    if n > 0 {
        let w = wholes(m);
        let head = interleave(g, w, (n - 1) as nat);
        assert(template == head + w[n - 1] + g[n as int]);
        assert(w[n - 1] == m[n - 1].0);
        assert(m[n - 1].0.len() > 0 && m[n - 1].0[0] == '$');
        assert(template[head.len() as int] == w[n - 1][0]);
        assert(false);
    }
}

/// The template interpolated under `ctx`.
pub open spec fn expansion(template: Seq<char>, ctx: HashMapContext) -> Seq<char> {
    let matches = pattern_matches(TOKEN_PATTERN@, template);
    interleave(
        pattern_gaps(TOKEN_PATTERN@, template),
        token_texts(Seq::new(matches.len(), |i: int| token_rendered(matches[i].1, ctx)), matches),
        matches.len(),
    )
}

} // verus!
