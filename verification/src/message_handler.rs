//! The content extractor and the match engine: strips protocol framing
//! from a raw line, then classifies the payload against the search
//! pattern, either line by line or through the multi-line accumulation
//! buffer.

use crate::pattern::{compiles, match_groups, match_sets_of, pat_matches, pattern_is_match,
    Pattern, PatternError};
use crate::strutil::{find_from, join_spaced, join_with_space, str_views, trim_spec, trim_str};
use vstd::prelude::*;

verus! {

/// The payload of a raw protocol line: the framing ends at the first
/// colon after the leading character, and everything after that colon,
/// with surrounding whitespace trimmed, is the payload. A line with no
/// such colon carries none.
pub open spec fn extract_spec(m: Seq<char>) -> Option<Seq<char>> {
    match find_from(m, ':', 1) {
        Option::None => Option::None,
        Option::Some(i) => Option::Some(trim_spec(m.skip(i + 1 as int))),
    }
}

/// Strips the protocol framing from one raw line, as [`extract_spec`]
/// describes: skips the leading character, scans for the next colon, and
/// returns the trimmed remainder; `None` if no colon follows the first
/// character.
pub fn get_content(m: &str) -> (r: Option<String>)
    ensures
        match r {
            Option::Some(s) => extract_spec(m@) matches Option::Some(p) && s@ == p,
            Option::None => extract_spec(m@) is None,
        },
{
    let n = m.unicode_len();
    let mut i: usize = 1;
    while i < n
        invariant
            1 <= i,
            n == m@.len(),
            find_from(m@, ':', 1) == find_from(m@, ':', i as nat),
        decreases n - i,
    {
        if m.get_char(i) == ':' {
            let rest = m.substring_char(i + 1, n);
            proof {
                assert(rest@ =~= m@.skip(i + 1));
            }
            return Option::Some(trim_str(rest));
        }
        i += 1;
    }
    Option::None
}

proof fn lemma_find_from_none(s: Seq<char>, c: char, i: nat)
    requires
        forall|j: int| i <= j < s.len() ==> s[j] != c,
    ensures
        find_from(s, c, i) is None,
    decreases s.len() - i,
{
    if i < s.len() {
        lemma_find_from_none(s, c, i + 1);
    }
}

proof fn lemma_find_from_hit(s: Seq<char>, c: char, i: nat, j: nat)
    requires
        i <= j < s.len(),
        s[j as int] == c,
        forall|k: int| i <= k < j ==> s[k] != c,
    ensures
        find_from(s, c, i) == Option::Some(j),
    decreases j - i,
{
    if i < j {
        lemma_find_from_hit(s, c, i + 1, j);
    }
}

/// Law: a raw line with no colon after its first character carries no
/// payload.
pub proof fn lemma_extract_no_colon(m: Seq<char>)
    requires
        forall|i: int| 1 <= i < m.len() ==> m[i] != ':',
    ensures
        extract_spec(m) is None,
{
    lemma_find_from_none(m, ':', 1);
}

/// Law: a raw line of the shape `":" + prefix + ":" + rest`, with no
/// colon inside `prefix`, yields exactly the trimmed `rest` as payload.
pub proof fn lemma_extract_framed(prefix: Seq<char>, rest: Seq<char>)
    requires
        forall|i: int| 0 <= i < prefix.len() ==> prefix[i] != ':',
    ensures
        extract_spec(seq![':'] + prefix + seq![':'] + rest) == Option::Some(trim_spec(rest)),
{
    let m = seq![':'] + prefix + seq![':'] + rest;
    let p = prefix.len() as int + 1;
    assert(m[p] == ':');
    assert forall|k: int| 1 <= k < p implies m[k] != ':' by {
        assert(m[k] == prefix[k - 1]);
    }
    lemma_find_from_hit(m, ':', 1, p as nat);
    assert(m.skip(p + 1) =~= rest);
}

/// How the engine consumes payloads: one line at a time, or buffered
/// between an init trigger and a conclusion condition.
pub enum MatchMode {
    SingleLine,
    MultiLine { init: Pattern, conclude: Option<Pattern>, line_limit: usize },
}

/// A freshly appended buffer concludes when it has reached the line
/// limit, or when a conclude pattern is configured and the arriving
/// payload matches it.
pub open spec fn concludes(
    buf_after: Seq<Seq<char>>,
    payload: Seq<char>,
    conclude: Option<Seq<char>>,
    limit: nat,
) -> bool {
    buf_after.len() == limit || (conclude matches Option::Some(c) && pat_matches(c, payload))
}

/// The accumulation buffer after one multi-line step: untouched while
/// idle without an init trigger; cleared when the appended buffer
/// concludes — whether or not the candidate then matches; grown by the
/// payload otherwise.
pub open spec fn multi_next_buffer(
    init: Seq<char>,
    conclude: Option<Seq<char>>,
    limit: nat,
    buf: Seq<Seq<char>>,
    payload: Seq<char>,
) -> Seq<Seq<char>> {
    if buf.len() == 0 && !pat_matches(init, payload) {
        buf
    } else if concludes(buf.push(payload), payload, conclude, limit) {
        Seq::empty()
    } else {
        buf.push(payload)
    }
}

/// The capture-group sets one multi-line step produces: none until a
/// conclusion; on conclusion, the full find-all result of the search
/// pattern against the space-joined buffered lines (possibly none, when
/// the assembled candidate does not match).
pub open spec fn multi_step_sets(
    pattern: Seq<char>,
    init: Seq<char>,
    conclude: Option<Seq<char>>,
    limit: nat,
    buf: Seq<Seq<char>>,
    payload: Seq<char>,
) -> Seq<Seq<Seq<char>>> {
    if buf.len() == 0 && !pat_matches(init, payload) {
        Seq::empty()
    } else if concludes(buf.push(payload), payload, conclude, limit) {
        match_sets_of(pattern, join_spaced(buf.push(payload)))
    } else {
        Seq::empty()
    }
}

/// Law: whenever a step concludes the window — by line limit or by
/// conclude trigger — the buffer is empty immediately afterward: the idle
/// state is restored regardless of whether the assembled candidate
/// matched the search pattern, and the next window needs a fresh init
/// trigger.
pub proof fn lemma_conclusion_restores_idle(
    init: Seq<char>,
    conclude: Option<Seq<char>>,
    limit: nat,
    buf: Seq<Seq<char>>,
    payload: Seq<char>,
)
    requires
        buf.len() > 0 || pat_matches(init, payload),
        concludes(buf.push(payload), payload, conclude, limit),
    ensures
        multi_next_buffer(init, conclude, limit, buf, payload).len() == 0,
{
}

/// Law: an init trigger reaching an idle engine only opens the window —
/// the line is buffered and nothing is dispatched — unless that very
/// line already concludes it, through a line limit of one or a conclude
/// trigger it happens to match as well.
pub proof fn lemma_init_line_only_buffers(
    pattern: Seq<char>,
    init: Seq<char>,
    conclude: Option<Seq<char>>,
    limit: nat,
    payload: Seq<char>,
)
    requires
        limit != 1,
        pat_matches(init, payload),
        !(conclude matches Option::Some(c) && pat_matches(c, payload)),
    ensures
        multi_next_buffer(init, conclude, limit, Seq::empty(), payload) == seq![payload],
        multi_step_sets(pattern, init, conclude, limit, Seq::empty(), payload).len() == 0,
{
    assert(Seq::empty().push(payload) =~= seq![payload]);
}

/// The match engine: owns the compiled search pattern, the mode, and (in
/// multi-line mode) the accumulation buffer. One instance serves one
/// message stream; the buffer is mutated only through [`Self::classify`].
pub struct MessageHandler {
    pattern: Pattern,
    mode: MatchMode,
    buffer: Vec<String>,
}

impl MessageHandler {
    /// The search pattern's source text.
    pub closed spec fn search_pattern(&self) -> Seq<char> {
        self.pattern@
    }

    /// Whether the engine buffers lines between triggers.
    pub closed spec fn is_multi_line(&self) -> bool {
        self.mode matches MatchMode::MultiLine { .. }
    }

    /// The init pattern's source text (multi-line mode).
    pub closed spec fn init_pattern(&self) -> Seq<char> {
        match self.mode {
            MatchMode::MultiLine { init, .. } => init@,
            MatchMode::SingleLine => Seq::empty(),
        }
    }

    /// The conclude pattern's source text, where one is configured
    /// (multi-line mode).
    pub closed spec fn conclude_pattern(&self) -> Option<Seq<char>> {
        match self.mode {
            MatchMode::MultiLine { conclude: Option::Some(c), .. } => Option::Some(c@),
            _ => Option::None,
        }
    }

    /// The configured line limit (multi-line mode).
    pub closed spec fn line_limit(&self) -> nat {
        match self.mode {
            MatchMode::MultiLine { line_limit, .. } => line_limit as nat,
            MatchMode::SingleLine => 0,
        }
    }

    /// The payloads accumulated since the last init trigger, in arrival
    /// order.
    pub closed spec fn buffered(&self) -> Seq<Seq<char>> {
        str_views(self.buffer@)
    }

    /// The configuration (pattern, mode and triggers) of `other` equals
    /// this engine's; only the buffer may differ.
    pub open spec fn same_config(&self, other: &MessageHandler) -> bool {
        &&& self.search_pattern() == other.search_pattern()
        &&& self.is_multi_line() == other.is_multi_line()
        &&& self.init_pattern() == other.init_pattern()
        &&& self.conclude_pattern() == other.conclude_pattern()
        &&& self.line_limit() == other.line_limit()
    }

    /// Builds a single-line engine; an invalid search pattern is a
    /// construction-time error, and construction succeeds if and only if
    /// the pattern is valid.
    pub fn new(search_pattern: &str) -> (r: Result<MessageHandler, PatternError>)
        ensures
            r is Ok <==> compiles(search_pattern@),
            r matches Ok(h) ==> h.search_pattern() == search_pattern@ && !h.is_multi_line()
                && h.buffered().len() == 0,
    {
        match Pattern::new(search_pattern) {
            Ok(pattern) => Ok(
                MessageHandler { pattern, mode: MatchMode::SingleLine, buffer: Vec::new() },
            ),
            Err(e) => Err(e),
        }
    }

    /// Builds a multi-line engine with an init trigger, an optional
    /// conclude trigger and a line limit; any invalid pattern is a
    /// construction-time error, and construction succeeds if and only if
    /// every given pattern is valid.
    pub fn new_multi_line(
        search_pattern: &str,
        init_pattern: &str,
        conclude_pattern: Option<&str>,
        line_limit: usize,
    ) -> (r: Result<MessageHandler, PatternError>)
        ensures
            r is Ok <==> compiles(search_pattern@) && compiles(init_pattern@) && (
            match conclude_pattern {
                Option::Some(c) => compiles(c@),
                Option::None => true,
            }),
            r matches Ok(h) ==> h.search_pattern() == search_pattern@ && h.is_multi_line()
                && h.init_pattern() == init_pattern@ && h.line_limit() == line_limit as nat
                && h.buffered().len() == 0 && (match conclude_pattern {
                Option::Some(c) => h.conclude_pattern() == Option::Some(c@),
                Option::None => h.conclude_pattern() is None,
            }),
    {
        let pattern = match Pattern::new(search_pattern) {
            Ok(p) => p,
            Err(e) => {
                return Err(e);
            },
        };
        let init = match Pattern::new(init_pattern) {
            Ok(p) => p,
            Err(e) => {
                return Err(e);
            },
        };
        let conclude = match conclude_pattern {
            Option::Some(c) => match Pattern::new(c) {
                Ok(p) => Option::Some(p),
                Err(e) => {
                    return Err(e);
                },
            },
            Option::None => Option::None,
        };
        Ok(
            MessageHandler {
                pattern,
                mode: MatchMode::MultiLine { init, conclude, line_limit },
                buffer: Vec::new(),
            },
        )
    }

    /// How many payloads the accumulation buffer currently holds.
    pub fn buffered_lines(&self) -> (r: usize)
        ensures
            r == self.buffered().len(),
    {
        self.buffer.len()
    }

    /// Consumes one payload and returns the capture-group sets it
    /// concludes, ready for dispatch.
    ///
    /// In single-line mode the result is the full find-all match of the
    /// search pattern against the payload, and the engine is unchanged.
    /// In multi-line mode the engine takes one step of the accumulation
    /// machine: an idle engine opens a window only on an init trigger; an
    /// appended buffer that concludes — line limit reached, or conclude
    /// trigger matched — is matched as one space-joined candidate and
    /// cleared; otherwise the payload is buffered and nothing is
    /// produced.
    pub fn classify(&mut self, payload: &str) -> (r: Vec<Vec<String>>)
        ensures
            old(self).same_config(final(self)),
            forall|i: int| 0 <= i < r.deep_view().len() ==> r.deep_view()[i].len() >= 1,
            !old(self).is_multi_line() ==> final(self).buffered() == old(self).buffered()
                && r.deep_view() == match_sets_of(old(self).search_pattern(), payload@),
            old(self).is_multi_line() ==> final(self).buffered() == multi_next_buffer(
                old(self).init_pattern(),
                old(self).conclude_pattern(),
                old(self).line_limit(),
                old(self).buffered(),
                payload@,
            ) && r.deep_view() == multi_step_sets(
                old(self).search_pattern(),
                old(self).init_pattern(),
                old(self).conclude_pattern(),
                old(self).line_limit(),
                old(self).buffered(),
                payload@,
            ),
    {
        let ghost buf0 = self.buffered();
        match &self.mode {
            MatchMode::SingleLine => {
                if !pattern_is_match(&self.pattern, payload) {
                    let r: Vec<Vec<String>> = Vec::new();
                    proof {
                        assert(r.deep_view() =~= match_sets_of(self.pattern@, payload@));
                    }
                    return r;
                }
                match_groups(&self.pattern, payload)
            },
            MatchMode::MultiLine { init, conclude, line_limit } => {
                if self.buffer.len() == 0 {
                    if !pattern_is_match(init, payload) {
                        let r: Vec<Vec<String>> = Vec::new();
                        proof {
                            assert(r.deep_view() =~= Seq::<Seq<Seq<char>>>::empty());
                        }
                        return r;
                    }
                }
                self.buffer.push(String::from_str(payload));
                proof {
                    assert(self.buffered() =~= buf0.push(payload@));
                }
                let hit_limit = self.buffer.len() == *line_limit;
                let hit_conclude = match conclude {
                    Option::Some(c) => pattern_is_match(c, payload),
                    Option::None => false,
                };
                if hit_limit || hit_conclude {
                    let candidate = join_with_space(&self.buffer);
                    self.buffer = Vec::new();
                    proof {
                        assert(self.buffered() =~= Seq::<Seq<char>>::empty());
                    }
                    match_groups(&self.pattern, candidate.as_str())
                } else {
                    let r: Vec<Vec<String>> = Vec::new();
                    proof {
                        assert(r.deep_view() =~= Seq::<Seq<Seq<char>>>::empty());
                    }
                    r
                }
            },
        }
    }
}

}
