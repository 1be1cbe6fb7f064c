//! The interpretation function: a deterministic keyword scorer that maps an
//! intent and a capability list to a ranked match.
//!
//! Tokenization splits on any non-alphanumeric boundary and lowercases.  A
//! capability's score is `(matching keywords / total keywords) *
//! match_weight`, in millionths, where the keyword list is drawn from the
//! capability's description, inputs and id (duplicates counted) and
//! membership is tested against the set of intent tokens.

use vstd::prelude::*;

use crate::confidence::SCALE;
use crate::message::{capabilities_view, Capability, CapabilityV, Context};
use crate::security::{lower_of, lowercase};

verus! {

/// Whether `char::is_alphanumeric` holds of a character.
pub uninterp spec fn is_alnum(c: char) -> bool;

/// Relies on `char::is_alphanumeric`: a pure predicate on the character.
#[verifier::external_body]
fn char_is_alphanumeric(c: char) -> (r: bool)
    ensures
        r == is_alnum(c),
{
    c.is_alphanumeric()
}

/// The token views of a token vector.
pub open spec fn tokens_view(ts: Seq<Vec<char>>) -> Seq<Seq<char>> {
    ts.map_values(|t: Vec<char>| t@)
}

/// One pass of tokenization over `s` from position `i`: `cur` is the word
/// being read, `acc` the words already read.
pub open spec fn tokens_from(
    s: Seq<char>,
    i: int,
    cur: Seq<char>,
    acc: Seq<Seq<char>>,
) -> Seq<Seq<char>>
    decreases s.len() - i,
{
    if i < 0 || i >= s.len() {
        if cur.len() > 0 {
            acc.push(cur)
        } else {
            acc
        }
    } else if is_alnum(s[i]) {
        tokens_from(s, i + 1, cur.push(s[i]), acc)
    } else if cur.len() > 0 {
        tokens_from(s, i + 1, Seq::empty(), acc.push(cur))
    } else {
        tokens_from(s, i + 1, Seq::empty(), acc)
    }
}

/// The tokens of a string: lowercased, split on any non-alphanumeric
/// boundary, empty tokens discarded.
pub open spec fn spec_tokenize(s: Seq<char>) -> Seq<Seq<char>> {
    tokens_from(lower_of(s), 0, Seq::empty(), Seq::empty())
}

/// Tokenize text into lowercase alphanumeric words.
pub fn tokenize(text: &str) -> (r: Vec<Vec<char>>)
    ensures
        tokens_view(r@) == spec_tokenize(text@),
{
    let low = lowercase(text);
    let low_str = low.as_str();
    let n = low_str.unicode_len();
    let mut acc: Vec<Vec<char>> = Vec::new();
    let mut cur: Vec<char> = Vec::new();
    let mut i: usize = 0;
    proof {
        assert(tokens_view(acc@) =~= Seq::<Seq<char>>::empty());
    }
    while i < n
        invariant
            0 <= i <= n,
            n == low@.len(),
            low_str@ == low@,
            tokens_from(low@, i as int, cur@, tokens_view(acc@)) == spec_tokenize(text@),
        decreases n - i,
    {
        let ghost cur0 = cur@;
        let ghost tv0 = tokens_view(acc@);
        let c = low_str.get_char(i);
        if char_is_alphanumeric(c) {
            cur.push(c);
        } else if cur.len() > 0 {
            acc.push(cur);
            cur = Vec::new();
            proof {
                assert(tokens_view(acc@) =~= tv0.push(cur0));
            }
        } else {
            proof {
                assert(cur0 =~= Seq::<char>::empty());
            }
        }
        proof {
            assert(tokens_from(low@, i as int, cur0, tv0) == tokens_from(
                low@,
                i as int + 1,
                cur@,
                tokens_view(acc@),
            ));
        }
        i += 1;
    }
    if cur.len() > 0 {
        let ghost old_acc = tokens_view(acc@);
        let ghost old_cur = cur@;
        acc.push(cur);
        proof {
            assert(tokens_view(acc@) =~= old_acc.push(old_cur));
        }
    }
    acc
}

/// The tokens of the first `k` inputs, concatenated.
pub open spec fn inputs_tokens_to(inputs: Seq<Seq<char>>, k: int) -> Seq<Seq<char>>
    decreases k,
{
    if k <= 0 {
        Seq::empty()
    } else {
        inputs_tokens_to(inputs, k - 1) + spec_tokenize(inputs[k - 1])
    }
}

/// The keyword list of a capability: the tokens of its description, its
/// inputs and its id, in that order, duplicates kept.
pub open spec fn spec_keywords(cap: CapabilityV) -> Seq<Seq<char>> {
    spec_tokenize(cap.description) + inputs_tokens_to(cap.inputs, cap.inputs.len() as int)
        + spec_tokenize(cap.id)
}

/// Extract the keywords of a capability.
pub fn capability_keywords(cap: &Capability) -> (r: Vec<Vec<char>>)
    ensures
        tokens_view(r@) == spec_keywords(cap@),
{
    let mut kws = tokenize(cap.description.as_str());
    let mut i: usize = 0;
    while i < cap.inputs.len()
        invariant
            0 <= i <= cap.inputs@.len(),
            tokens_view(kws@) == spec_tokenize(cap@.description) + inputs_tokens_to(
                cap@.inputs,
                i as int,
            ),
            cap@.inputs.len() == cap.inputs@.len(),
            forall|j: int| 0 <= j < cap.inputs@.len() ==> cap@.inputs[j] == (
            #[trigger] cap.inputs@[j])@,
        decreases cap.inputs@.len() - i,
    {
        let ghost before = tokens_view(kws@);
        let mut extra = tokenize(cap.inputs[i].as_str());
        let ghost extra_view = tokens_view(extra@);
        kws.append(&mut extra);
        proof {
            assert(tokens_view(kws@) =~= before + extra_view);
        }
        i += 1;
    }
    let ghost before_id = tokens_view(kws@);
    let mut id_tokens = tokenize(cap.id.as_str());
    let ghost id_view = tokens_view(id_tokens@);
    kws.append(&mut id_tokens);
    proof {
        assert(tokens_view(kws@) =~= before_id + id_view);
    }
    kws
}

/// Character-vector equality.
fn chars_eq(a: &Vec<char>, b: &Vec<char>) -> (r: bool)
    ensures
        r == (a@ == b@),
{
    if a.len() != b.len() {
        return false;
    }
    let mut i: usize = 0;
    while i < a.len()
        invariant
            0 <= i <= a@.len(),
            a@.len() == b@.len(),
            forall|j: int| 0 <= j < i ==> a@[j] == b@[j],
        decreases a@.len() - i,
    {
        if a[i] != b[i] {
            return false;
        }
        i += 1;
    }
    proof {
        assert(a@ =~= b@);
    }
    true
}

/// Whether a token occurs among the intent tokens.
fn contains_token(toks: &Vec<Vec<char>>, kw: &Vec<char>) -> (r: bool)
    ensures
        r == tokens_view(toks@).contains(kw@),
{
    let mut i: usize = 0;
    while i < toks.len()
        invariant
            0 <= i <= toks@.len(),
            forall|j: int| 0 <= j < i ==> tokens_view(toks@)[j] != kw@,
        decreases toks@.len() - i,
    {
        if chars_eq(&toks[i], kw) {
            proof {
                assert(tokens_view(toks@)[i as int] == kw@);
            }
            return true;
        }
        i += 1;
    }
    proof {
        assert(!tokens_view(toks@).contains(kw@));
    }
    false
}

/// How many of the first `k` keywords occur among the intent tokens.
pub open spec fn count_matches(kws: Seq<Seq<char>>, toks: Seq<Seq<char>>, k: int) -> int
    decreases k,
{
    if k <= 0 {
        0
    } else {
        count_matches(kws, toks, k - 1) + if toks.contains(kws[k - 1]) {
            1int
        } else {
            0int
        }
    }
}

/// The match count never exceeds the number of keywords.
pub proof fn lemma_count_matches_bound(kws: Seq<Seq<char>>, toks: Seq<Seq<char>>, k: int)
    requires
        k >= 0,
    ensures
        0 <= count_matches(kws, toks, k) <= k,
    decreases k,
{
    if k > 0 {
        lemma_count_matches_bound(kws, toks, k - 1);
    }
}

/// The score of a capability against the intent tokens:
/// `(matches * match_weight) / |keywords|`, in millionths, and 0 for an
/// empty keyword list.
pub open spec fn spec_score(toks: Seq<Seq<char>>, cap: CapabilityV, match_weight: u64) -> int {
    let kws = spec_keywords(cap);
    if kws.len() == 0 {
        0
    } else {
        count_matches(kws, toks, kws.len() as int) * match_weight / (kws.len() as int)
    }
}

/// A score never exceeds the match weight.
pub proof fn lemma_score_bound(toks: Seq<Seq<char>>, cap: CapabilityV, match_weight: u64)
    ensures
        0 <= spec_score(toks, cap, match_weight) <= match_weight,
{
    let kws = spec_keywords(cap);
    if kws.len() > 0 {
        let n = kws.len() as int;
        let m = count_matches(kws, toks, n);
        lemma_count_matches_bound(kws, toks, n);
        assert(0 <= m * match_weight / n <= match_weight) by (nonlinear_arith)
            requires
                0 <= m <= n,
                0 < n,
                match_weight >= 0,
        ;
    }
}

/// The scores of a capability list against the intent tokens.
pub open spec fn spec_scores(toks: Seq<Seq<char>>, caps: Seq<CapabilityV>, match_weight: u64) -> Seq<
    int,
> {
    Seq::new(caps.len(), |i: int| spec_score(toks, caps[i], match_weight))
}

/// The index of the best score in `scores[i..]`, given that `best` is the
/// index of the best score so far; the earliest index wins ties.
pub open spec fn top_from(scores: Seq<int>, i: int, best: int) -> int
    decreases scores.len() - i,
{
    if i < 0 || i >= scores.len() {
        best
    } else if scores[i] > scores[best] {
        top_from(scores, i + 1, i)
    } else {
        top_from(scores, i + 1, best)
    }
}

/// The index of the highest score; the earliest index wins ties.
pub open spec fn spec_top(scores: Seq<int>) -> int {
    top_from(scores, 1, 0)
}

/// The top index points at a maximal score and is the earliest such index.
pub proof fn lemma_top_from_props(scores: Seq<int>, i: int, best: int)
    requires
        0 <= best < i <= scores.len(),
        forall|j: int| 0 <= j < i ==> scores[j] <= scores[best],
        forall|j: int| 0 <= j < best ==> scores[j] < scores[best],
    ensures
        0 <= top_from(scores, i, best) < scores.len(),
        forall|j: int| 0 <= j < scores.len() ==> #[trigger] scores[j] <= scores[top_from(
            scores,
            i,
            best,
        )],
        forall|j: int| 0 <= j < top_from(scores, i, best) ==> #[trigger] scores[j] < scores[
            top_from(scores, i, best)],
    decreases scores.len() - i,
{
    if i < scores.len() {
        if scores[i] > scores[best] {
            lemma_top_from_props(scores, i + 1, i);
        } else {
            lemma_top_from_props(scores, i + 1, best);
        }
    }
}

/// The top index of a non-empty score list points at a maximal score and is
/// the earliest such index.
pub proof fn lemma_top_props(scores: Seq<int>)
    requires
        scores.len() > 0,
    ensures
        0 <= spec_top(scores) < scores.len(),
        forall|j: int| 0 <= j < scores.len() ==> #[trigger] scores[j] <= scores[spec_top(scores)],
        forall|j: int| 0 <= j < spec_top(scores) ==> #[trigger] scores[j] < scores[spec_top(
            scores,
        )],
{
    lemma_top_from_props(scores, 1, 0);
}

/// The integer values of a score vector.
pub open spec fn int_scores(s: Seq<u64>) -> Seq<int> {
    s.map_values(|x: u64| x as int)
}

/// Result of an interpretation: the matched capability, the raw confidence
/// in millionths, and ranked alternatives.
#[derive(Debug)]
pub struct InterpretationResult {
    /// The server's reading of the intent.
    pub interpretation: String,
    /// The matched capability, if any score reached the minimum.
    pub capability: Option<Capability>,
    /// The raw probability of the best match, in millionths.
    pub raw_confidence: u64,
    /// Alternative interpretations, best first.
    pub alternatives: Vec<AlternativeInterpretation>,
}

/// An alternative interpretation with a different capability.
#[derive(Debug)]
pub struct AlternativeInterpretation {
    pub interpretation: String,
    pub capability: Capability,
    pub confidence: u64,
}

/// Baseline deterministic interpreter using keyword matching, with weights
/// in millionths.
#[derive(Clone, Copy, Debug, PartialEq, Eq, Structural)]
pub struct KeywordInterpreter {
    /// Weight applied to the keyword match ratio (default 1.0).
    pub match_weight: u64,
    /// Minimum score to consider a match (default 0.2).
    pub min_score: u64,
}

impl KeywordInterpreter {
    /// Both parameters lie in the unit interval.
    pub open spec fn wf(self) -> bool {
        self.match_weight <= SCALE && self.min_score <= SCALE
    }

    /// Create a keyword interpreter with custom parameters.
    pub fn new(match_weight: u64, min_score: u64) -> (r: KeywordInterpreter)
        requires
            match_weight <= SCALE,
            min_score <= SCALE,
        ensures
            r == (KeywordInterpreter { match_weight, min_score }),
            r.wf(),
    {
        KeywordInterpreter { match_weight, min_score }
    }

    /// Score a capability against the intent tokens.
    pub fn score(&self, intent_tokens: &Vec<Vec<char>>, cap: &Capability) -> (r: u64)
        requires
            self.wf(),
        ensures
            r as int == spec_score(tokens_view(intent_tokens@), cap@, self.match_weight),
            r <= SCALE,
    {
        let kws = capability_keywords(cap);
        let n = kws.len();
        proof {
            lemma_score_bound(tokens_view(intent_tokens@), cap@, self.match_weight);
        }
        if n == 0 {
            return 0;
        }
        let mut m: usize = 0;
        let mut i: usize = 0;
        while i < n
            invariant
                0 <= i <= n,
                n == kws@.len(),
                m <= i,
                tokens_view(kws@) == spec_keywords(cap@),
                m as int == count_matches(
                    tokens_view(kws@),
                    tokens_view(intent_tokens@),
                    i as int,
                ),
            decreases n - i,
        {
            if contains_token(intent_tokens, &kws[i]) {
                m += 1;
            }
            proof {
                assert(tokens_view(kws@)[i as int] == kws@[i as int]@);
            }
            i += 1;
        }
        proof {
            assert((m as int) * (self.match_weight as int) <= (0xFFFF_FFFF_FFFF_FFFFu64 as int)
                * 1_000_000) by (nonlinear_arith)
                requires
                    0 <= m as int <= 0xFFFF_FFFF_FFFF_FFFFu64 as int,
                    0 <= self.match_weight as int <= 1_000_000,
            ;
        }
        let num: u128 = (m as u128) * (self.match_weight as u128);
        let den: u128 = n as u128;
        let q: u128 = num / den;
        proof {
            assert((m as int) * (self.match_weight as int) / (n as int)
                <= self.match_weight as int && 0 <= (m as int) * (self.match_weight as int) / (
            n as int)) by (nonlinear_arith)
                requires
                    0 <= m <= n,
                    0 < n,
                    self.match_weight >= 0,
            ;
        }
        q as u64
    }
}

impl Default for KeywordInterpreter {
    /// The default parameters: match weight 1.0, minimum score 0.2.
    fn default() -> (r: KeywordInterpreter)
        ensures
            r == (KeywordInterpreter { match_weight: 1_000_000u64, min_score: 200_000u64 }),
            r.wf(),
    {
        KeywordInterpreter { match_weight: 1_000_000, min_score: 200_000 }
    }
}

/// Whether a vector of indices holds a value.
fn contains_usize(v: &Vec<usize>, x: usize) -> (r: bool)
    ensures
        r == v@.contains(x),
{
    let mut i: usize = 0;
    while i < v.len()
        invariant
            0 <= i <= v@.len(),
            forall|j: int| 0 <= j < i ==> v@[j] != x,
        decreases v@.len() - i,
    {
        if v[i] == x {
            return true;
        }
        i += 1;
    }
    proof {
        assert(!v@.contains(x));
    }
    false
}

/// The index of the highest score outside `excluded`, earliest first, or
/// `None` when every index is excluded.
fn argmax_excluding(scores: &Vec<u64>, excluded: &Vec<usize>) -> (r: Option<usize>)
    ensures
        r matches Some(j) ==> j < scores@.len() && !excluded@.contains(j) && forall|k: usize|
            k < scores@.len() && !excluded@.contains(k) ==> scores@[k as int] <= scores@[j as int],
        r is None ==> forall|k: usize| k < scores@.len() ==> excluded@.contains(k),
{
    let mut best: Option<usize> = None;
    let mut k: usize = 0;
    while k < scores.len()
        invariant
            0 <= k <= scores@.len(),
            best matches Some(b) ==> b < k && !excluded@.contains(b) && forall|k2: usize|
                k2 < k && !excluded@.contains(k2) ==> scores@[k2 as int] <= scores@[b as int],
            best is None ==> forall|k2: usize| k2 < k ==> excluded@.contains(k2),
        decreases scores@.len() - k,
    {
        if !contains_usize(excluded, k) {
            match best {
                Some(b) => {
                    if scores[k] > scores[b] {
                        best = Some(k);
                    }
                },
                None => {
                    best = Some(k);
                },
            }
        }
        k += 1;
    }
    best
}

/// How many of the first `k` indices qualify as alternatives: scoring at
/// least the minimum and not among the excluded indices.
pub open spec fn count_qual_ex(scores: Seq<int>, min_score: u64, excl: Seq<int>, k: int) -> int
    decreases k,
{
    if k <= 0 {
        0
    } else {
        count_qual_ex(scores, min_score, excl, k - 1) + if scores[k - 1] >= min_score as int
            && !excl.contains(k - 1) {
            1int
        } else {
            0int
        }
    }
}

/// The qualifying count is zero exactly when no index qualifies, and it is
/// never negative.
pub proof fn lemma_count_qual_zero(scores: Seq<int>, min_score: u64, excl: Seq<int>, k: int)
    ensures
        count_qual_ex(scores, min_score, excl, k) >= 0,
        (count_qual_ex(scores, min_score, excl, k) == 0 <==> forall|j: int|
            0 <= j < k ==> !(#[trigger] scores[j] >= min_score as int && !excl.contains(j))),
    decreases k,
{
    if k > 0 {
        lemma_count_qual_zero(scores, min_score, excl, k - 1);
    }
}

/// Excluding one more index lowers the qualifying count by one when that
/// index qualified, and not at all otherwise.
pub proof fn lemma_count_qual_exclude(
    scores: Seq<int>,
    min_score: u64,
    excl: Seq<int>,
    a: int,
    k: int,
)
    requires
        !excl.contains(a),
    ensures
        count_qual_ex(scores, min_score, excl.push(a), k) == count_qual_ex(
            scores,
            min_score,
            excl,
            k,
        ) - if 0 <= a < k && scores[a] >= min_score as int {
            1int
        } else {
            0int
        },
    decreases k,
{
    if k > 0 {
        lemma_count_qual_exclude(scores, min_score, excl, a, k - 1);
        assert(excl.push(a).contains(a)) by {
            assert(excl.push(a)[excl.len() as int] == a);
        }
        assert forall|j: int| j != a implies (excl.push(a).contains(j) == excl.contains(j)) by {
            if excl.contains(j) {
                let w = choose|w: int| 0 <= w < excl.len() && excl[w] == j;
                assert(excl.push(a)[w] == j);
            }
            if excl.push(a).contains(j) {
                let w = choose|w: int| 0 <= w < excl.push(a).len() && excl.push(a)[w] == j;
                assert(w < excl.len());
                assert(excl[w] == j);
            }
        }
    }
}

/// How many of the first `k` indices other than the top one score
/// strictly above `x`.
pub open spec fn count_better(scores: Seq<int>, top: int, x: int, k: int) -> int
    decreases k,
{
    if k <= 0 {
        0
    } else {
        count_better(scores, top, x, k - 1) + if k - 1 != top && scores[k - 1] > x {
            1int
        } else {
            0int
        }
    }
}

/// When no index beats `x`, the better-count is zero.
pub proof fn lemma_count_better_none(scores: Seq<int>, top: int, x: int, k: int)
    requires
        forall|j: int| 0 <= j < k ==> !(j != top && #[trigger] scores[j] > x),
    ensures
        count_better(scores, top, x, k) == 0,
    decreases k,
{
    if k > 0 {
        lemma_count_better_none(scores, top, x, k - 1);
    }
}

/// When only `a` may beat `x`, the better-count is at most one.
pub proof fn lemma_count_better_one(scores: Seq<int>, top: int, x: int, k: int, a: int)
    requires
        forall|j: int| 0 <= j < k && j != top && #[trigger] scores[j] > x ==> j == a,
    ensures
        count_better(scores, top, x, k) <= if 0 <= a < k {
            1int
        } else {
            0int
        },
    decreases k,
{
    if k > 0 {
        lemma_count_better_one(scores, top, x, k - 1, a);
    }
}

/// When only `a` and `b` may beat `x`, the better-count is at most two.
pub proof fn lemma_count_better_two(scores: Seq<int>, top: int, x: int, k: int, a: int, b: int)
    requires
        forall|j: int| 0 <= j < k && j != top && #[trigger] scores[j] > x ==> (j == a || j == b),
    ensures
        count_better(scores, top, x, k) <= (if 0 <= a < k {
            1int
        } else {
            0int
        }) + (if 0 <= b < k {
            1int
        } else {
            0int
        }),
    decreases k,
{
    if k > 0 {
        lemma_count_better_two(scores, top, x, k - 1, a, b);
    }
}

/// One well-formed alternative: it names a capability other than the
/// selected one, carries that capability's score, and that score reaches
/// the minimum.
pub open spec fn alt_ok(
    scores: Seq<int>,
    caps: Seq<Capability>,
    top: int,
    min_score: u64,
    alt: AlternativeInterpretation,
) -> bool {
    exists|j: int|
        0 <= j < caps.len() && j != top && alt.capability@ == caps[j]@ && alt.confidence as int
            == scores[j] && scores[j] >= min_score as int && alt.interpretation@ == "Use "@
            + caps[j]@.id + " capability"@
}

/// Everything the interpretation function promises: the raw confidence is
/// the top score; the capability is the earliest top-scoring one when that
/// score reaches the minimum; the alternatives are up to three other
/// capabilities whose scores reach the minimum, best first, and are present
/// whenever such a capability exists.
pub open spec fn interp_ensures(
    ki: KeywordInterpreter,
    intent: Seq<char>,
    caps: Seq<Capability>,
    r: InterpretationResult,
) -> bool {
    let scores = ki.spec_result_scores(intent, caps);
    let top = spec_top(scores);
    &&& r.raw_confidence <= SCALE
    &&& r.alternatives@.len() <= 3
    &&& (caps.len() == 0 ==> r.capability is None && r.raw_confidence == 0 && r.alternatives@.len()
        == 0)
    &&& (caps.len() > 0 ==> r.raw_confidence as int == scores[top])
    &&& (caps.len() > 0 && scores[top] >= ki.min_score as int ==> (r.capability matches Some(c)
        && c@ == caps[top]@))
    &&& (caps.len() > 0 && scores[top] < ki.min_score as int ==> r.capability is None)
    &&& (forall|k: int|
        0 <= k < r.alternatives@.len() ==> alt_ok(
            scores,
            caps,
            top,
            ki.min_score,
            #[trigger] r.alternatives@[k],
        ))
    &&& (forall|k1: int, k2: int|
        0 <= k1 < k2 < r.alternatives@.len() ==> (#[trigger] r.alternatives@[k1]).confidence >= (
        #[trigger] r.alternatives@[k2]).confidence)
    &&& ((caps.len() > 0 && exists|j: int|
        0 <= j < caps.len() && j != top && #[trigger] scores[j] >= ki.min_score as int)
        ==> r.alternatives@.len() > 0)
    &&& (caps.len() > 0 ==> r.alternatives@.len() as int == ({
        let q = count_qual_ex(scores, ki.min_score, seq![top], scores.len() as int);
        if q <= 3 {
            q
        } else {
            3int
        }
    }))
    &&& (forall|k: int|
        0 <= k < r.alternatives@.len() ==> count_better(
            scores,
            top,
            (#[trigger] r.alternatives@[k]).confidence as int,
            scores.len() as int,
        ) <= k)
    &&& (r.capability matches Some(c) ==> r.interpretation@ == "Execute "@ + c@.id + " for: "@
        + intent)
    &&& (r.capability is None ==> r.interpretation@ == "No matching capability found"@)
}

impl KeywordInterpreter {
    /// The scores this interpreter assigns to a capability list for an
    /// intent.
    pub open spec fn spec_result_scores(self, intent: Seq<char>, caps: Seq<Capability>) -> Seq<
        int,
    > {
        spec_scores(spec_tokenize(intent), capabilities_view(caps), self.match_weight)
    }

    /// Interpret a client intent against the available capabilities: pick
    /// the highest-scoring capability (earliest on ties) if its score
    /// reaches the minimum, and offer up to three further capabilities
    /// whose scores reach the minimum as alternatives, best first.
    pub fn interpret(
        &self,
        intent: &str,
        context: &Context,
        capabilities: &Vec<Capability>,
    ) -> (r: InterpretationResult)
        requires
            self.wf(),
        ensures
            interp_ensures(*self, intent@, capabilities@, r),
    {
        let toks = tokenize(intent);
        let n = capabilities.len();
        if n == 0 {
            return InterpretationResult {
                interpretation: String::from_str("No matching capability found"),
                capability: None,
                raw_confidence: 0,
                alternatives: Vec::new(),
            };
        }
        let ghost gscores = self.spec_result_scores(intent@, capabilities@);
        let mut scores: Vec<u64> = Vec::new();
        let mut i: usize = 0;
        while i < n
            invariant
                self.wf(),
                0 <= i <= n,
                n == capabilities@.len(),
                gscores == self.spec_result_scores(intent@, capabilities@),
                tokens_view(toks@) == spec_tokenize(intent@),
                scores@.len() == i,
                gscores.len() == n,
                forall|j: int| 0 <= j < i ==> scores@[j] as int == gscores[j],
                forall|j: int| 0 <= j < i ==> scores@[j] <= SCALE,
            decreases n - i,
        {
            let s = self.score(&toks, &capabilities[i]);
            proof {
                assert(capabilities_view(capabilities@)[i as int] == capabilities@[i as int]@);
            }
            scores.push(s);
            i += 1;
        }
        let top = argmax_in(&scores);
        proof {
            lemma_top_props(int_scores(scores@));
            assert(int_scores(scores@) =~= gscores);
        }
        let top_score = scores[top];
        let capability: Option<Capability> = if top_score >= self.min_score {
            Some(capabilities[top].clone())
        } else {
            None
        };
        let interpretation: String = match &capability {
            Some(c) => {
                let mut t = String::from_str("Execute ");
                t.append(c.id.as_str());
                t.append(" for: ");
                t.append(intent);
                t
            },
            None => String::from_str("No matching capability found"),
        };
        let mut excluded: Vec<usize> = Vec::new();
        excluded.push(top);
        let mut alternatives: Vec<AlternativeInterpretation> = Vec::new();
        let ghost gtop = spec_top(gscores);
        let ghost n_int = gscores.len() as int;
        let ghost mut elist: Seq<int> = seq![gtop];
        let ghost q0 = count_qual_ex(gscores, self.min_score, seq![gtop], n_int);
        let ghost mut qcur: int = q0;
        proof {
            assert(excluded@ =~= seq![top]);
            assert(excluded@[0] == top);
            assert(excluded@.contains(top));
            assert(elist[0] == gtop);
            lemma_count_qual_zero(gscores, self.min_score, seq![gtop], n_int);
        }
        let first = argmax_excluding(&scores, &excluded);
        proof {
            if capabilities@.len() > 0 && (exists|j: int|
                0 <= j < capabilities@.len() && j != gtop && gscores[j]
                    >= self.min_score as int) {
                let j = choose|j: int|
                    0 <= j < capabilities@.len() && j != gtop && gscores[j]
                        >= self.min_score as int;
                assert(!seq![top].contains(j as usize)) by {
                    assert(seq![top][0] == top);
                }
                if first is None {
                    assert(excluded@.contains(j as usize));
                    assert(false);
                }
                let j1v = first->Some_0;
                assert(scores@[j] <= scores@[j1v as int]);
                assert(scores@[j1v as int] >= self.min_score);
            }
            // A qualifying index exists exactly when the count is positive.
            if q0 > 0 {
                let j = choose|j: int|
                    0 <= j < n_int && gscores[j] >= self.min_score as int && !seq![
                        gtop,
                    ].contains(j);
                assert(j != gtop);
                assert(!seq![top].contains(j as usize)) by {
                    assert(seq![top][0] == top);
                }
                if first is None {
                    assert(excluded@.contains(j as usize));
                    assert(false);
                }
                let j1v = first->Some_0;
                assert(scores@[j] <= scores@[j1v as int]);
                assert(scores@[j1v as int] >= self.min_score);
            }
        }
        if let Some(j1) = first {
            proof {
                assert(j1 != top);
                assert(!elist.contains(j1 as int)) by {
                    assert(elist.len() == 1 && elist[0] == gtop);
                }
            }
            if scores[j1] >= self.min_score {
                let alt = make_alternative(capabilities, &scores, j1);
                proof {
                    assert(capabilities_view(capabilities@)[j1 as int] == capabilities@[j1 as int]@);
                    assert(alt.capability@ == capabilities@[j1 as int]@);
                    assert(alt.confidence as int == gscores[j1 as int]);
                    assert(gscores[j1 as int] >= self.min_score as int);
                    assert(alt.interpretation@ == "Use "@ + capabilities@[j1 as int]@.id
                        + " capability"@);
                    assert(alt_ok(gscores, capabilities@, gtop, self.min_score, alt));
                    assert(q0 > 0);
                    assert forall|j: int|
                        0 <= j < n_int implies !(j != gtop && #[trigger] gscores[j]
                        > alt.confidence as int) by {
                        if j != gtop {
                            assert(!seq![top].contains(j as usize)) by {
                                assert(seq![top][0] == top);
                            }
                            assert(scores@[j] <= scores@[j1 as int]);
                        }
                    }
                    lemma_count_better_none(gscores, gtop, alt.confidence as int, n_int);
                }
                alternatives.push(alt);
            } else {
                proof {
                    assert(q0 == 0);
                }
            }
            excluded.push(j1);
            proof {
                assert(excluded@ =~= seq![top, j1]);
                assert(excluded@[0] == top);
                assert(excluded@[1] == j1);
                assert(excluded@.contains(top));
                assert(excluded@.contains(j1));
                lemma_count_qual_exclude(gscores, self.min_score, elist, j1 as int, n_int);
                elist = elist.push(j1 as int);
                qcur = count_qual_ex(gscores, self.min_score, elist, n_int);
                assert(elist =~= seq![gtop, j1 as int]);
                assert(qcur == q0 - (if alternatives@.len() > 0 { 1int } else { 0int }));
                assert(alternatives@.len() as int == (if q0 <= 1 { q0 } else { 1int }));
                lemma_count_qual_zero(gscores, self.min_score, elist, n_int);
            }
            let second = argmax_excluding(&scores, &excluded);
            proof {
                if qcur > 0 {
                    let j = choose|j: int|
                        0 <= j < n_int && gscores[j] >= self.min_score as int && !elist.contains(
                            j,
                        );
                    assert(j != gtop && j != j1 as int) by {
                        assert(elist[0] == gtop && elist[1] == j1 as int);
                    }
                    assert(!seq![top, j1].contains(j as usize)) by {
                        assert(seq![top, j1][0] == top);
                        assert(seq![top, j1][1] == j1);
                    }
                    if second is None {
                        assert(excluded@.contains(j as usize));
                        assert(false);
                    }
                    let j2v = second->Some_0;
                    assert(scores@[j] <= scores@[j2v as int]);
                    assert(scores@[j2v as int] >= self.min_score);
                }
            }
            if let Some(j2) = second {
                proof {
                    assert(excluded@[0] == top && excluded@[1] == j1);
                    assert(j2 != top && j2 != j1);
                    assert(!seq![top].contains(j2)) by {
                        assert(seq![top][0] == top);
                    }
                    assert(scores@[j2 as int] <= scores@[j1 as int]);
                    assert(!elist.contains(j2 as int)) by {
                        assert(elist[0] == gtop && elist[1] == j1 as int);
                    }
                }
                if scores[j2] >= self.min_score {
                    let alt = make_alternative(capabilities, &scores, j2);
                    proof {
                        assert(capabilities_view(capabilities@)[j2 as int] == capabilities@[
                        j2 as int]@);
                        assert(alt.capability@ == capabilities@[j2 as int]@);
                        assert(alt.confidence as int == gscores[j2 as int]);
                        assert(gscores[j2 as int] >= self.min_score as int);
                        assert(alt.interpretation@ == "Use "@ + capabilities@[j2 as int]@.id
                            + " capability"@);
                        assert(alt_ok(gscores, capabilities@, gtop, self.min_score, alt));
                        assert(qcur > 0);
                        assert forall|j: int|
                            0 <= j < n_int && j != gtop && #[trigger] gscores[j]
                                > alt.confidence as int implies j == j1 as int by {
                            if j != j1 as int {
                                assert(!seq![top, j1].contains(j as usize)) by {
                                    assert(seq![top, j1][0] == top);
                                    assert(seq![top, j1][1] == j1);
                                }
                                assert(scores@[j] <= scores@[j2 as int]);
                            }
                        }
                        lemma_count_better_one(gscores, gtop, alt.confidence as int, n_int,
                            j1 as int);
                    }
                    alternatives.push(alt);
                } else {
                    proof {
                        assert(qcur == 0);
                    }
                }
                excluded.push(j2);
                proof {
                    assert(excluded@ =~= seq![top, j1, j2]);
                    assert(excluded@[0] == top);
                    assert(excluded@[1] == j1);
                    assert(excluded@[2] == j2);
                    assert(excluded@.contains(top));
                    assert(excluded@.contains(j1));
                    assert(excluded@.contains(j2));
                    lemma_count_qual_exclude(gscores, self.min_score, elist, j2 as int, n_int);
                    elist = elist.push(j2 as int);
                    qcur = count_qual_ex(gscores, self.min_score, elist, n_int);
                    assert(elist =~= seq![gtop, j1 as int, j2 as int]);
                    assert(alternatives@.len() as int == (if q0 <= 2 { q0 } else { 2int }));
                    assert(qcur == q0 - alternatives@.len());
                    lemma_count_qual_zero(gscores, self.min_score, elist, n_int);
                }
                let third = argmax_excluding(&scores, &excluded);
                proof {
                    if qcur > 0 {
                        let j = choose|j: int|
                            0 <= j < n_int && gscores[j] >= self.min_score as int
                                && !elist.contains(j);
                        assert(j != gtop && j != j1 as int && j != j2 as int) by {
                            assert(elist[0] == gtop && elist[1] == j1 as int && elist[2]
                                == j2 as int);
                        }
                        assert(!seq![top, j1, j2].contains(j as usize)) by {
                            assert(seq![top, j1, j2][0] == top);
                            assert(seq![top, j1, j2][1] == j1);
                            assert(seq![top, j1, j2][2] == j2);
                        }
                        if third is None {
                            assert(excluded@.contains(j as usize));
                            assert(false);
                        }
                        let j3v = third->Some_0;
                        assert(scores@[j] <= scores@[j3v as int]);
                        assert(scores@[j3v as int] >= self.min_score);
                    }
                }
                if let Some(j3) = third {
                    proof {
                        assert(excluded@[0] == top && excluded@[1] == j1 && excluded@[2] == j2);
                        assert(j3 != top && j3 != j1 && j3 != j2);
                        assert(!seq![top, j1].contains(j3)) by {
                            assert(seq![top, j1][0] == top);
                            assert(seq![top, j1][1] == j1);
                        }
                        assert(scores@[j3 as int] <= scores@[j2 as int]);
                    }
                    if scores[j3] >= self.min_score {
                        let alt = make_alternative(capabilities, &scores, j3);
                        proof {
                            assert(capabilities_view(capabilities@)[j3 as int] == capabilities@[
                            j3 as int]@);
                            assert(alt.capability@ == capabilities@[j3 as int]@);
                            assert(alt.confidence as int == gscores[j3 as int]);
                            assert(gscores[j3 as int] >= self.min_score as int);
                            assert(alt.interpretation@ == "Use "@ + capabilities@[j3 as int]@.id
                                + " capability"@);
                            assert(alt_ok(gscores, capabilities@, gtop, self.min_score, alt));
                            assert(qcur > 0) by {
                                assert(!elist.contains(j3 as int)) by {
                                    assert(elist[0] == gtop && elist[1] == j1 as int && elist[2]
                                        == j2 as int);
                                }
                            }
                            assert forall|j: int|
                                0 <= j < n_int && j != gtop && #[trigger] gscores[j]
                                    > alt.confidence as int implies (j == j1 as int || j
                                == j2 as int) by {
                                if j != j1 as int && j != j2 as int {
                                    assert(!seq![top, j1, j2].contains(j as usize)) by {
                                        assert(seq![top, j1, j2][0] == top);
                                        assert(seq![top, j1, j2][1] == j1);
                                        assert(seq![top, j1, j2][2] == j2);
                                    }
                                    assert(scores@[j] <= scores@[j3 as int]);
                                }
                            }
                            lemma_count_better_two(gscores, gtop, alt.confidence as int, n_int,
                                j1 as int, j2 as int);
                        }
                        alternatives.push(alt);
                    } else {
                        proof {
                            assert(qcur == 0);
                        }
                    }
                } else {
                    proof {
                        if qcur > 0 {
                            assert(false);
                        }
                    }
                }
                proof {
                    assert(alternatives@.len() as int == (if q0 <= 3 { q0 } else { 3int }));
                }
            } else {
                proof {
                    if qcur > 0 {
                        assert(false);
                    }
                    assert(alternatives@.len() as int == (if q0 <= 3 { q0 } else { 3int }));
                }
            }
        } else {
            proof {
                if q0 > 0 {
                    assert(false);
                }
                assert(alternatives@.len() as int == (if q0 <= 3 { q0 } else { 3int }));
            }
        }
        proof {
            assert(alternatives@.len() as int == (if q0 <= 3 { q0 } else { 3int }));
        }
        proof {
            assert(alternatives@.len() >= 2 ==> alternatives@[0].confidence >= alternatives@[
            1].confidence);
            assert(alternatives@.len() >= 3 ==> alternatives@[1].confidence >= alternatives@[
            2].confidence);
            assert(alternatives@.len() >= 3 ==> alternatives@[0].confidence >= alternatives@[
            2].confidence);
        }
        InterpretationResult { interpretation, capability, raw_confidence: top_score, alternatives }
    }
}

/// Build the alternative record for the capability at index `j`.
fn make_alternative(capabilities: &Vec<Capability>, scores: &Vec<u64>, j: usize) -> (r:
    AlternativeInterpretation)
    requires
        j < capabilities@.len(),
        capabilities@.len() == scores@.len(),
    ensures
        r.capability@ == capabilities@[j as int]@,
        r.confidence == scores@[j as int],
        r.interpretation@ == "Use "@ + capabilities@[j as int]@.id + " capability"@,
{
    let mut t = String::from_str("Use ");
    t.append(capabilities[j].id.as_str());
    t.append(" capability");
    AlternativeInterpretation {
        interpretation: t,
        capability: capabilities[j].clone(),
        confidence: scores[j],
    }
}

/// The index of the highest score, earliest first.
fn argmax_in(scores: &Vec<u64>) -> (r: usize)
    requires
        scores@.len() > 0,
    ensures
        r as int == spec_top(int_scores(scores@)),
{
    let ghost s = int_scores(scores@);
    let mut best: usize = 0;
    let mut i: usize = 1;
    while i < scores.len()
        invariant
            0 < i <= scores@.len(),
            best < i,
            s == int_scores(scores@),
            s.len() == scores@.len(),
            top_from(s, i as int, best as int) == spec_top(s),
        decreases scores@.len() - i,
    {
        if scores[i] > scores[best] {
            best = i;
        }
        i += 1;
    }
    best
}

} // verus!
