//! The dispatch engine's verified half: positional template rendering and
//! the construction of the outbound request's body and header values from
//! one capture-group set. Issuing the HTTP POST itself is transport work
//! and lives outside this crate; it receives the rendered values from
//! here.

use crate::strutil::{push_char, str_views};
use vstd::prelude::*;

verus! {

/// The decimal digit `d` as a character.
pub open spec fn digit_char(d: nat) -> char {
    if d == 0 {
        '0'
    } else if d == 1 {
        '1'
    } else if d == 2 {
        '2'
    } else if d == 3 {
        '3'
    } else if d == 4 {
        '4'
    } else if d == 5 {
        '5'
    } else if d == 6 {
        '6'
    } else if d == 7 {
        '7'
    } else if d == 8 {
        '8'
    } else {
        '9'
    }
}

/// The decimal digits of `n`, most significant first.
pub open spec fn spec_digits(n: nat) -> Seq<char>
    decreases n,
{
    if n < 10 {
        seq![digit_char(n)]
    } else {
        spec_digits(n / 10).push(digit_char(n % 10))
    }
}

/// The placeholder token for index `i`: `${i}`.
pub open spec fn placeholder(i: nat) -> Seq<char> {
    seq!['$', '{'] + spec_digits(i) + seq!['}']
}

/// `s` with every non-overlapping occurrence of `from` replaced by `to`,
/// scanning left to right. A replaced region is skipped over, so text that
/// `to` introduces is not scanned again within the same pass.
pub open spec fn replace_all(s: Seq<char>, from: Seq<char>, to: Seq<char>) -> Seq<char>
    decreases s.len(),
{
    if s.len() == 0 {
        s
    } else if from.len() > 0 && s.len() >= from.len() && s.subrange(0, from.len() as int)
        == from {
        to + replace_all(s.skip(from.len() as int), from, to)
    } else {
        seq![s[0]] + replace_all(s.drop_first(), from, to)
    }
}

/// The template with the placeholders `${0}`, `${1}`, ... substituted by
/// the values, one index after another in increasing order, each pass
/// operating on the result of the previous one. A substituted value must
/// not itself contain placeholder-shaped text, or a later pass will
/// substitute inside it; that is a documented limitation of this
/// deliberately simple policy, not guarded against.
pub open spec fn render_spec(t: Seq<char>, vals: Seq<Seq<char>>) -> Seq<char>
    decreases vals.len(),
{
    if vals.len() == 0 {
        t
    } else {
        replace_all(
            render_spec(t, vals.drop_last()),
            placeholder((vals.len() - 1) as nat),
            vals.last(),
        )
    }
}

fn digit_char_exec(d: usize) -> (c: char)
    requires
        d < 10,
    ensures
        c == digit_char(d as nat),
{
    if d == 0 {
        '0'
    } else if d == 1 {
        '1'
    } else if d == 2 {
        '2'
    } else if d == 3 {
        '3'
    } else if d == 4 {
        '4'
    } else if d == 5 {
        '5'
    } else if d == 6 {
        '6'
    } else if d == 7 {
        '7'
    } else if d == 8 {
        '8'
    } else {
        '9'
    }
}

fn push_digits(out: &mut String, n: usize)
    ensures
        final(out)@ == old(out)@ + spec_digits(n as nat),
    decreases n,
{
    if n < 10 {
        push_char(out, digit_char_exec(n));
        proof {
            assert(out@ =~= old(out)@ + spec_digits(n as nat));
        }
    } else {
        push_digits(out, n / 10);
        push_char(out, digit_char_exec(n % 10));
        proof {
            assert(out@ =~= old(out)@ + spec_digits(n as nat));
        }
    }
}

/// Builds the literal placeholder token `${i}`.
fn placeholder_string(i: usize) -> (r: String)
    ensures
        r@ == placeholder(i as nat),
{
    let mut out = String::new();
    push_char(&mut out, '$');
    push_char(&mut out, '{');
    push_digits(&mut out, i);
    push_char(&mut out, '}');
    proof {
        assert(out@ =~= placeholder(i as nat));
    }
    out
}

fn str_starts_with(s: &str, pre: &str) -> (r: bool)
    ensures
        r == (s@.len() >= pre@.len() && s@.subrange(0, pre@.len() as int) == pre@),
{
    let n = s.unicode_len();
    let m = pre.unicode_len();
    if n < m {
        return false;
    }
    let mut j: usize = 0;
    while j < m
        invariant
            j <= m,
            m <= n,
            n == s@.len(),
            m == pre@.len(),
            forall|k: int| 0 <= k < j ==> s@[k] == pre@[k],
        decreases m - j,
    {
        if s.get_char(j) != pre.get_char(j) {
            assert(s@.subrange(0, m as int)[j as int] != pre@[j as int]);
            return false;
        }
        j += 1;
    }
    proof {
        assert(s@.subrange(0, m as int) =~= pre@);
    }
    true
}

/// Replaces every non-overlapping occurrence of `from` with `to`, as
/// [`replace_all`] describes.
fn replace_str(s: &str, from: &str, to: &str) -> (r: String)
    requires
        from@.len() > 0,
    ensures
        r@ == replace_all(s@, from@, to@),
    decreases s@.len(),
{
    let n = s.unicode_len();
    if n == 0 {
        let r = String::new();
        proof {
            assert(r@ =~= replace_all(s@, from@, to@));
        }
        r
    } else if str_starts_with(s, from) {
        let m = from.unicode_len();
        let rest = s.substring_char(m, n);
        proof {
            assert(rest@ =~= s@.skip(from@.len() as int));
        }
        let tail = replace_str(rest, from, to);
        let mut out = String::from_str(to);
        out.append(tail.as_str());
        out
    } else {
        let rest = s.substring_char(1, n);
        proof {
            assert(rest@ =~= s@.drop_first());
        }
        let tail = replace_str(rest, from, to);
        let mut out = String::new();
        push_char(&mut out, s.get_char(0));
        out.append(tail.as_str());
        proof {
            assert(out@ =~= seq![s@[0]] + replace_all(s@.drop_first(), from@, to@));
        }
        out
    }
}

/// Renders the template against one capture-group set: every literal
/// occurrence of `${i}` is replaced by `group[i]`, for each index the
/// group holds, in increasing order. Indices with no placeholder are
/// unused; placeholders with no value are left verbatim. A pure function
/// of its arguments.
pub fn templ_replace(templ: &str, group: &[String]) -> (r: String)
    ensures
        r@ == render_spec(templ@, str_views(group@)),
{
    let ghost vals = str_views(group@);
    let mut body = String::from_str(templ);
    let mut idx: usize = 0;
    while idx < group.len()
        invariant
            idx <= group.len(),
            vals == str_views(group@),
            body@ == render_spec(templ@, vals.take(idx as int)),
        decreases group.len() - idx,
    {
        let ph = placeholder_string(idx);
        assert(ph@.len() > 0);
        body = replace_str(body.as_str(), ph.as_str(), group[idx].as_str());
        proof {
            let k = idx as int;
            assert(vals.take(k + 1).drop_last() =~= vals.take(k));
            assert(vals.take(k + 1).last() == vals[k]);
        }
        idx += 1;
    }
    proof {
        assert(vals.take(group@.len() as int) =~= vals);
    }
    body
}

/// `tok` occurs in `s` as a contiguous substring.
pub open spec fn occurs_in(tok: Seq<char>, s: Seq<char>) -> bool {
    exists|i: int|
        0 <= i && i + tok.len() <= s.len() && #[trigger] s.subrange(i, i + tok.len()) == tok
}

/// `c` is a decimal digit character.
spec fn is_digit_char(c: char) -> bool {
    c == '0' || c == '1' || c == '2' || c == '3' || c == '4' || c == '5' || c == '6' || c == '7'
        || c == '8' || c == '9'
}

proof fn lemma_digits_are_digits(n: nat)
    ensures
        spec_digits(n).len() >= 1,
        forall|k: int| 0 <= k < spec_digits(n).len() ==> is_digit_char(#[trigger] spec_digits(n)[k]),
    decreases n,
{
    if n >= 10 {
        lemma_digits_are_digits(n / 10);
    }
}

proof fn lemma_placeholder_shape(i: nat)
    ensures
        placeholder(i).len() >= 4,
        placeholder(i)[0] == '$',
        forall|k: int| 1 <= k < placeholder(i).len() ==> #[trigger] placeholder(i)[k] != '$',
        placeholder(i)[placeholder(i).len() - 1] == '}',
        forall|k: int|
            0 <= k < placeholder(i).len() - 1 ==> #[trigger] placeholder(i)[k] != '}',
{
    lemma_digits_are_digits(i);
    let ph = placeholder(i);
    let d = spec_digits(i);
    assert forall|k: int| 1 <= k < ph.len() implies #[trigger] ph[k] != '$' by {
        if 2 <= k < 2 + d.len() {
            assert(ph[k] == d[k - 2]);
        }
    }
    assert forall|k: int| 0 <= k < ph.len() - 1 implies #[trigger] ph[k] != '}' by {
        if 2 <= k < 2 + d.len() {
            assert(ph[k] == d[k - 2]);
        }
    }
}

proof fn lemma_digits_injective(a: nat, b: nat)
    requires
        spec_digits(a) == spec_digits(b),
    ensures
        a == b,
    decreases a,
{
    lemma_digits_are_digits(a);
    lemma_digits_are_digits(b);
    if a < 10 && b < 10 {
        assert(spec_digits(a)[0] == digit_char(a));
        assert(spec_digits(b)[0] == digit_char(b));
        assert(digit_char(a) == digit_char(b));
    } else if a >= 10 && b >= 10 {
        assert(spec_digits(a) == spec_digits(a / 10).push(digit_char(a % 10)));
        assert(spec_digits(b) == spec_digits(b / 10).push(digit_char(b % 10)));
        assert(spec_digits(a).drop_last() =~= spec_digits(a / 10));
        assert(spec_digits(b).drop_last() =~= spec_digits(b / 10));
        lemma_digits_injective(a / 10, b / 10);
        assert(spec_digits(a).last() == digit_char(a % 10));
        assert(spec_digits(b).last() == digit_char(b % 10));
        assert(a % 10 == b % 10);
        vstd::arithmetic::div_mod::lemma_fundamental_div_mod(a as int, 10);
        vstd::arithmetic::div_mod::lemma_fundamental_div_mod(b as int, 10);
    } else if a < 10 {
        assert(spec_digits(b).len() == spec_digits(b / 10).len() + 1);
        lemma_digits_are_digits(b / 10);
        assert(false);
    } else {
        assert(spec_digits(a).len() == spec_digits(a / 10).len() + 1);
        lemma_digits_are_digits(a / 10);
        assert(false);
    }
}

proof fn lemma_placeholder_injective(a: nat, b: nat)
    requires
        placeholder(a) == placeholder(b),
    ensures
        a == b,
{
    lemma_digits_are_digits(a);
    lemma_digits_are_digits(b);
    assert(placeholder(a).len() == spec_digits(a).len() + 3);
    assert(placeholder(b).len() == spec_digits(b).len() + 3);
    assert(spec_digits(a).len() == spec_digits(b).len());
    assert(placeholder(a).subrange(2, 2 + spec_digits(a).len() as int) =~= spec_digits(a));
    assert(placeholder(b).subrange(2, 2 + spec_digits(b).len() as int) =~= spec_digits(b));
    lemma_digits_injective(a, b);
}

/// Two occurrences of distinct placeholder tokens never overlap: a `$`
/// stands only at a token's start, a `}` only at its end, so overlapping
/// occurrences would put one of them elsewhere.
proof fn lemma_placeholder_occurrences_disjoint(s: Seq<char>, a: nat, b: nat, p: int, q: int)
    requires
        a != b,
        0 <= p,
        p + placeholder(a).len() <= s.len(),
        s.subrange(p, p + placeholder(a).len()) == placeholder(a),
        0 <= q,
        q + placeholder(b).len() <= s.len(),
        s.subrange(q, q + placeholder(b).len()) == placeholder(b),
    ensures
        p + placeholder(a).len() <= q || q + placeholder(b).len() <= p,
{
    lemma_placeholder_shape(a);
    lemma_placeholder_shape(b);
    let pha = placeholder(a);
    let phb = placeholder(b);
    let la = pha.len() as int;
    let lb = phb.len() as int;
    assert forall|k: int| 0 <= k < la implies s[p + k] == pha[k] by {
        assert(s.subrange(p, p + la)[k] == s[p + k]);
    }
    assert forall|k: int| 0 <= k < lb implies s[q + k] == phb[k] by {
        assert(s.subrange(q, q + lb)[k] == s[q + k]);
    }
    if p == q {
        if la == lb {
            assert(pha =~= phb);
            lemma_placeholder_injective(a, b);
        } else if la < lb {
            assert(s[p + la - 1] == pha[la - 1]);
            assert(s[q + la - 1] == phb[la - 1]);
            assert(pha[la - 1] == '}' && phb[la - 1] != '}');
        } else {
            assert(s[q + lb - 1] == phb[lb - 1]);
            assert(s[p + lb - 1] == pha[lb - 1]);
            assert(phb[lb - 1] == '}' && pha[lb - 1] != '}');
        }
    } else if p < q && q < p + la {
        assert(s[q] == phb[0] && phb[0] == '$');
        assert(s[p + (q - p)] == pha[q - p]);
        assert(pha[q - p] != '$');
    } else if q < p && p < q + lb {
        assert(s[p] == pha[0] && pha[0] == '$');
        assert(s[q + (p - q)] == phb[p - q]);
        assert(phb[p - q] != '$');
    }
}

proof fn lemma_occurs_in_concat_right(tok: Seq<char>, x: Seq<char>, y: Seq<char>)
    requires
        occurs_in(tok, y),
    ensures
        occurs_in(tok, x + y),
{
    let i = choose|i: int|
        0 <= i && i + tok.len() <= y.len() && #[trigger] y.subrange(i, i + tok.len()) == tok;
    assert((x + y).subrange(x.len() + i, x.len() + i + tok.len()) =~= tok);
}

/// Where no occurrence of `from` begins before position `k`, replacement
/// copies the first `k` characters verbatim and works on the rest.
proof fn lemma_replace_skip_prefix(s: Seq<char>, from: Seq<char>, to: Seq<char>, k: int)
    requires
        from.len() > 0,
        0 <= k <= s.len(),
        forall|p: int|
            0 <= p < k ==> !(p + from.len() <= s.len() && #[trigger] s.subrange(
                p,
                p + from.len(),
            ) == from),
    ensures
        replace_all(s, from, to) == s.take(k) + replace_all(s.skip(k), from, to),
    decreases k,
{
    if k == 0 {
        assert(s.skip(0) =~= s);
        assert(s.take(0) + replace_all(s, from, to) =~= replace_all(s, from, to));
    } else {
        assert(!(0 + from.len() <= s.len() && s.subrange(0, from.len() as int) == from));
        let rest = s.drop_first();
        assert forall|p: int|
            0 <= p < k - 1 implies !(p + from.len() <= rest.len() && #[trigger] rest.subrange(
            p,
            p + from.len(),
        ) == from) by {
            if p + from.len() <= rest.len() && rest.subrange(p, p + from.len()) == from {
                assert(s.subrange(p + 1, p + 1 + from.len()) =~= rest.subrange(
                    p,
                    p + from.len(),
                ));
            }
        }
        lemma_replace_skip_prefix(rest, from, to, k - 1);
        assert(s.take(k) =~= seq![s[0]] + rest.take(k - 1));
        assert(s.skip(k) =~= rest.skip(k - 1));
        assert(seq![s[0]] + (rest.take(k - 1) + replace_all(rest.skip(k - 1), from, to)) =~= s.take(
            k,
        ) + replace_all(s.skip(k), from, to));
    }
}

/// Replacing one placeholder token never removes an occurrence of a
/// different one: the occurrence survives into the replaced string.
proof fn lemma_replace_preserves_token(s: Seq<char>, a: nat, b: nat, to: Seq<char>, q: int)
    requires
        a != b,
        0 <= q,
        q + placeholder(b).len() <= s.len(),
        s.subrange(q, q + placeholder(b).len()) == placeholder(b),
    ensures
        occurs_in(placeholder(b), replace_all(s, placeholder(a), to)),
    decreases s.len(),
{
    let from = placeholder(a);
    let tok = placeholder(b);
    let fl = from.len() as int;
    let tl = tok.len() as int;
    lemma_placeholder_shape(a);
    lemma_placeholder_shape(b);
    if s.len() >= fl && s.subrange(0, fl) == from {
        lemma_placeholder_occurrences_disjoint(s, a, b, 0, q);
        assert(q >= fl);
        let rest = s.skip(fl);
        assert(rest.subrange(q - fl, q - fl + tl) =~= s.subrange(q, q + tl));
        lemma_replace_preserves_token(rest, a, b, to, q - fl);
        lemma_occurs_in_concat_right(tok, to, replace_all(rest, from, to));
    } else if q == 0 {
        assert forall|p: int|
            0 <= p < tl implies !(p + from.len() <= s.len() && #[trigger] s.subrange(
            p,
            p + from.len(),
        ) == from) by {
            if p + from.len() <= s.len() && s.subrange(p, p + from.len()) == from {
                lemma_placeholder_occurrences_disjoint(s, a, b, p, 0);
            }
        }
        lemma_replace_skip_prefix(s, from, to, tl);
        assert(s.take(tl) =~= tok);
        let out = replace_all(s, from, to);
        assert(out.subrange(0, tl) =~= tok);
    } else {
        let rest = s.drop_first();
        assert(rest.subrange(q - 1, q - 1 + tl) =~= s.subrange(q, q + tl));
        lemma_replace_preserves_token(rest, a, b, to, q - 1);
        lemma_occurs_in_concat_right(tok, seq![s[0]], replace_all(rest, from, to));
    }
}

/// Law: a placeholder with no corresponding value is left verbatim —
/// rendering substitutes only the indices the value list holds, so a
/// token `${j}` occurring in the template, with `j` at or beyond the
/// list's length, still occurs in the rendered result.
pub proof fn lemma_unmatched_placeholder_kept(t: Seq<char>, vals: Seq<Seq<char>>, j: nat)
    requires
        occurs_in(placeholder(j), t),
        j >= vals.len(),
    ensures
        occurs_in(placeholder(j), render_spec(t, vals)),
    decreases vals.len(),
{
    if vals.len() > 0 {
        lemma_unmatched_placeholder_kept(t, vals.drop_last(), j);
        let mid = render_spec(t, vals.drop_last());
        let tok = placeholder(j);
        let i = choose|i: int|
            0 <= i && i + tok.len() <= mid.len() && #[trigger] mid.subrange(i, i + tok.len())
                == tok;
        lemma_replace_preserves_token(mid, (vals.len() - 1) as nat, j, vals.last(), i);
    }
}

/// Law: rendering is pure — the result is a function of the template and
/// the values alone. [`templ_replace`] equates each call's result with
/// `render_spec` of its arguments, so two calls with identical arguments
/// return identical strings and have no further observable effect.
pub proof fn lemma_render_deterministic(
    t: Seq<char>,
    vals: Seq<Seq<char>>,
    r1: Seq<char>,
    r2: Seq<char>,
)
    requires
        r1 == render_spec(t, vals),
        r2 == render_spec(t, vals),
    ensures
        r1 == r2,
{
}

/// The header names of a header-name/template list, in order.
pub open spec fn names_of(headers: Seq<(String, String)>) -> Seq<Seq<char>> {
    Seq::new(headers.len(), |i: int| headers[i].0@)
}

/// The header value templates of a header-name/template list, in order.
pub open spec fn templates_of(headers: Seq<(String, String)>) -> Seq<Seq<char>> {
    Seq::new(headers.len(), |i: int| headers[i].1@)
}

/// The immutable dispatch target: destination, body template and the
/// header-name/template pairs, shared read-only by every dispatched
/// request. Header names are expected to be distinct, as a configuration
/// table keys them; nothing here enforces that, and with a duplicate name
/// every pair is rendered and handed to the transport, whose header map
/// decides which value survives.
pub struct WebhookPublisher {
    endpoint: String,
    template: String,
    headers: Vec<(String, String)>,
}

/// One outbound request, fully rendered: the POST body and the concrete
/// header pairs. Handing it to the HTTP transport is the caller's work.
pub struct RenderedRequest {
    pub body: String,
    pub headers: Vec<(String, String)>,
}

impl WebhookPublisher {
    /// The destination, as the text of its URI.
    pub closed spec fn endpoint_text(&self) -> Seq<char> {
        self.endpoint@
    }

    /// The body template.
    pub closed spec fn template_text(&self) -> Seq<char> {
        self.template@
    }

    /// The configured header names, in order.
    pub closed spec fn header_names(&self) -> Seq<Seq<char>> {
        names_of(self.headers@)
    }

    /// The configured header value templates, in order.
    pub closed spec fn header_templates(&self) -> Seq<Seq<char>> {
        templates_of(self.headers@)
    }

    /// `r` is the request that `vals` renders to against this target:
    /// the body is the rendered body template, and each configured header
    /// keeps its name and gets its template rendered against the same
    /// values.
    pub open spec fn is_rendered_for(&self, r: RenderedRequest, vals: Seq<Seq<char>>) -> bool {
        &&& r.body@ == render_spec(self.template_text(), vals)
        &&& r.headers@.len() == self.header_names().len()
        &&& forall|i: int|
            0 <= i < r.headers@.len() ==> r.headers@[i].0@ == self.header_names()[i]
                && r.headers@[i].1@ == render_spec(self.header_templates()[i], vals)
    }

    pub fn new(endpoint: String, template: String, headers: Vec<(String, String)>) -> (r:
        WebhookPublisher)
        ensures
            r.endpoint_text() == endpoint@,
            r.template_text() == template@,
            r.header_names() == names_of(headers@),
            r.header_templates() == templates_of(headers@),
    {
        WebhookPublisher { endpoint, template, headers }
    }

    /// The destination URI's text, for the transport to parse and post to.
    pub fn endpoint(&self) -> (r: &str)
        ensures
            r@ == self.endpoint_text(),
    {
        self.endpoint.as_str()
    }

    /// Renders the body and every header value against one capture-group
    /// set.
    pub fn render_group(&self, group: &Vec<String>) -> (r: RenderedRequest)
        ensures
            self.is_rendered_for(r, str_views(group@)),
    {
        let body = templ_replace(self.template.as_str(), group.as_slice());
        let mut headers: Vec<(String, String)> = Vec::new();
        let mut i: usize = 0;
        while i < self.headers.len()
            invariant
                i <= self.headers.len(),
                headers@.len() == i,
                forall|j: int|
                    0 <= j < i ==> headers@[j].0@ == self.header_names()[j] && headers@[j].1@
                        == render_spec(self.header_templates()[j], str_views(group@)),
            decreases self.headers.len() - i,
        {
            let name = self.headers[i].0.clone();
            let value = templ_replace(self.headers[i].1.as_str(), group.as_slice());
            headers.push((name, value));
            proof {
                let k = i as int;
                assert(headers@[k].0@ == self.header_names()[k]);
                assert(headers@[k].1@ == render_spec(
                    self.header_templates()[k],
                    str_views(group@),
                ));
            }
            i += 1;
        }
        RenderedRequest { body, headers }
    }

    /// Renders one request per capture-group set: the list of requests
    /// that one `publish` call dispatches. Each element is a function of
    /// the shared target and its own set alone, independent of its
    /// siblings.
    pub fn render_all(&self, groups: &Vec<Vec<String>>) -> (r: Vec<RenderedRequest>)
        ensures
            r@.len() == groups@.len(),
            forall|i: int|
                0 <= i < r@.len() ==> self.is_rendered_for(r@[i], str_views(groups@[i]@)),
    {
        let mut out: Vec<RenderedRequest> = Vec::new();
        let mut i: usize = 0;
        while i < groups.len()
            invariant
                i <= groups.len(),
                out@.len() == i,
                forall|j: int|
                    0 <= j < i ==> self.is_rendered_for(out@[j], str_views(groups@[j]@)),
            decreases groups.len() - i,
        {
            let req = self.render_group(&groups[i]);
            out.push(req);
            i += 1;
        }
        out
    }
}

}
