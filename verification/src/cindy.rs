//! How Cindy's turns are matched with its daily totals.
//!
//! Cindy keeps exact totals per day, agent and model, and details per turn.
//! A turn is taken into the ledger only where it fits one daily model; what
//! the taken turns leave of a daily total is written as a residual, so that
//! both together always make the daily total.

use vstd::prelude::*;
use crate::numbers;
use crate::text;
use crate::usage;

verus! {

/// How a model is paid for.
#[derive(Clone, Copy, Debug, PartialEq, Eq, Structural)]
pub enum CindyBillingKind {
    Api,
    Subscription,
}

/// Token counts of the four kinds.
pub struct Tokens {
    pub input: int,
    pub output: int,
    pub cache_read: int,
    pub cache_create: int,
}

impl Tokens {
    pub open spec fn none() -> Tokens {
        Tokens { input: 0, output: 0, cache_read: 0, cache_create: 0 }
    }

    pub open spec fn plus(self, other: Tokens) -> Tokens {
        Tokens {
            input: self.input + other.input,
            output: self.output + other.output,
            cache_read: self.cache_read + other.cache_read,
            cache_create: self.cache_create + other.cache_create,
        }
    }

    pub open spec fn minus(self, other: Tokens) -> Tokens {
        Tokens {
            input: self.input - other.input,
            output: self.output - other.output,
            cache_read: self.cache_read - other.cache_read,
            cache_create: self.cache_create - other.cache_create,
        }
    }

    /// No count is above that of `other`.
    pub open spec fn within(self, other: Tokens) -> bool {
        &&& self.input <= other.input
        &&& self.output <= other.output
        &&& self.cache_read <= other.cache_read
        &&& self.cache_create <= other.cache_create
    }

    /// Each count brought into the range of `i64`.
    pub open spec fn held(self) -> Tokens {
        Tokens {
            input: numbers::saturated(self.input),
            output: numbers::saturated(self.output),
            cache_read: numbers::saturated(self.cache_read),
            cache_create: numbers::saturated(self.cache_create),
        }
    }
}

/// Token counts as they are added up.
#[derive(Clone, Copy, Debug, PartialEq, Eq, Structural)]
pub struct CindyTokenBuckets {
    pub input: i64,
    pub output: i64,
    pub cache_read: i64,
    pub cache_create: i64,
}

impl View for CindyTokenBuckets {
    type V = Tokens;

    open spec fn view(&self) -> Tokens {
        Tokens {
            input: self.input as int,
            output: self.output as int,
            cache_read: self.cache_read as int,
            cache_create: self.cache_create as int,
        }
    }
}

/// A daily total as Cindy keeps it, with the agent's kind as Cindy names it.
/// Costs are the bits of IEEE 754 doubles.
#[derive(Debug)]
pub struct CindyDailyUsage {
    pub day: String,
    pub agent_kind: String,
    pub model: String,
    pub cost_usd: u64,
    pub cost_amount: u64,
    pub cost_currency: String,
    pub cost_is_approximate: bool,
    pub input_tokens: i64,
    pub output_tokens: i64,
    pub cache_read_tokens: i64,
    pub cache_create_tokens: i64,
}

/// One finished turn of a Cindy session. The agent's kind is named as Cindy
/// names it.
#[derive(Debug)]
pub struct CindyTurnUsage {
    pub request_id: String,
    pub day: String,
    pub agent_kind: String,
    pub canonical_model: String,
    pub billing_hint: Option<CindyBillingKind>,
    pub session_id: String,
    pub sdk_session_id: Option<String>,
    pub created_at: i64,
    pub duration_ms: i64,
    pub input_tokens: u32,
    pub output_tokens: u32,
    pub cache_read_tokens: u32,
    pub cache_create_tokens: u32,
}

/// What a turn says.
pub struct TurnFacts {
    pub request_id: Seq<char>,
    pub day: Seq<char>,
    pub agent_kind: Seq<char>,
    pub canonical_model: Seq<char>,
    pub billing_hint: Option<CindyBillingKind>,
    pub session_id: Seq<char>,
    pub sdk_session_id: Option<Seq<char>>,
    pub created_at: i64,
    pub duration_ms: i64,
    pub input_tokens: u32,
    pub output_tokens: u32,
    pub cache_read_tokens: u32,
    pub cache_create_tokens: u32,
}

impl View for CindyTurnUsage {
    type V = TurnFacts;

    open spec fn view(&self) -> TurnFacts {
        TurnFacts {
            request_id: self.request_id@,
            day: self.day@,
            agent_kind: self.agent_kind@,
            canonical_model: self.canonical_model@,
            billing_hint: self.billing_hint,
            session_id: self.session_id@,
            sdk_session_id: text::opt_text(self.sdk_session_id),
            created_at: self.created_at,
            duration_ms: self.duration_ms,
            input_tokens: self.input_tokens,
            output_tokens: self.output_tokens,
            cache_read_tokens: self.cache_read_tokens,
            cache_create_tokens: self.cache_create_tokens,
        }
    }
}

/// A count, with those below zero taken for zero.
pub open spec fn no_less_than_zero(n: i64) -> int {
    if n < 0 {
        0
    } else {
        n as int
    }
}

pub fn cindy_token_i64(value: i64) -> (r: i64)
    ensures
        r == no_less_than_zero(value),
{
    if value < 0 {
        0
    } else {
        value
    }
}

/// The tokens of a daily total.
pub open spec fn daily_tokens(usage: CindyDailyUsage) -> Tokens {
    Tokens {
        input: no_less_than_zero(usage.input_tokens),
        output: no_less_than_zero(usage.output_tokens),
        cache_read: no_less_than_zero(usage.cache_read_tokens),
        cache_create: no_less_than_zero(usage.cache_create_tokens),
    }
}

/// The tokens of a turn.
pub open spec fn turn_tokens(usage: CindyTurnUsage) -> Tokens {
    Tokens {
        input: usage.input_tokens as int,
        output: usage.output_tokens as int,
        cache_read: usage.cache_read_tokens as int,
        cache_create: usage.cache_create_tokens as int,
    }
}

impl CindyTokenBuckets {
    pub fn none() -> (r: CindyTokenBuckets)
        ensures
            r@ == Tokens::none(),
    {
        CindyTokenBuckets { input: 0, output: 0, cache_read: 0, cache_create: 0 }
    }

    pub fn from_daily(usage: &CindyDailyUsage) -> (r: CindyTokenBuckets)
        ensures
            r@ == daily_tokens(*usage),
    {
        CindyTokenBuckets {
            input: cindy_token_i64(usage.input_tokens),
            output: cindy_token_i64(usage.output_tokens),
            cache_read: cindy_token_i64(usage.cache_read_tokens),
            cache_create: cindy_token_i64(usage.cache_create_tokens),
        }
    }

    pub fn from_turn(usage: &CindyTurnUsage) -> (r: CindyTokenBuckets)
        ensures
            r@ == turn_tokens(*usage),
    {
        CindyTokenBuckets {
            input: usage.input_tokens as i64,
            output: usage.output_tokens as i64,
            cache_read: usage.cache_read_tokens as i64,
            cache_create: usage.cache_create_tokens as i64,
        }
    }

    pub fn add_assign(&mut self, other: CindyTokenBuckets)
        ensures
            final(self)@ == old(self)@.plus(other@).held(),
    {
        self.input = numbers::add_saturating(self.input, other.input);
        self.output = numbers::add_saturating(self.output, other.output);
        self.cache_read = numbers::add_saturating(self.cache_read, other.cache_read);
        self.cache_create = numbers::add_saturating(self.cache_create, other.cache_create);
    }

    pub fn fits_within(self, daily: CindyTokenBuckets) -> (r: bool)
        ensures
            r == self@.within(daily@),
    {
        self.input <= daily.input && self.output <= daily.output && self.cache_read
            <= daily.cache_read && self.cache_create <= daily.cache_create
    }

    pub fn subtract(self, covered: CindyTokenBuckets) -> (r: CindyTokenBuckets)
        requires
            self@.minus(covered@) == self@.minus(covered@).held(),
        ensures
            r@ == self@.minus(covered@),
    {
        CindyTokenBuckets {
            input: self.input - covered.input,
            output: self.output - covered.output,
            cache_read: self.cache_read - covered.cache_read,
            cache_create: self.cache_create - covered.cache_create,
        }
    }

    pub fn is_zero(self) -> (r: bool)
        ensures
            r == (self@ == Tokens::none()),
    {
        self.input == 0 && self.output == 0 && self.cache_read == 0 && self.cache_create == 0
    }
}

/// An agent that belongs to the application `app`: Cindy calls it `cc`, or by
/// the application's name with `-code` behind it.
pub open spec fn belongs_to(agent_kind: Seq<char>, app: Seq<char>) -> bool {
    agent_kind == "cc"@ || agent_kind == app + "-code"@
}

/// The one name of an agent's kind.
pub open spec fn canonical_agent(agent_kind: Seq<char>, app: Seq<char>) -> Seq<char> {
    if belongs_to(agent_kind, app) {
        app + "-code"@
    } else {
        agent_kind
    }
}

/// The provider that stands for an agent.
pub open spec fn provider_of(agent_kind: Seq<char>, app: Seq<char>) -> Seq<char> {
    if belongs_to(agent_kind, app) {
        "_cindy_"@ + app + "_code"@
    } else if agent_kind == "codex"@ {
        "_cindy_codex"@
    } else if agent_kind == "pi"@ {
        "_cindy_pi"@
    } else {
        usage::CINDY_PROVIDER_ID@
    }
}

/// The application that may log an agent's calls too.
pub open spec fn upstream_app(agent_kind: Seq<char>, app: Seq<char>) -> Option<Seq<char>> {
    if agent_kind == "codex"@ {
        Some("codex"@)
    } else if belongs_to(agent_kind, app) {
        Some(app)
    } else if agent_kind == "pi"@ {
        Some("pi"@)
    } else {
        None
    }
}

/// Whether an agent belongs to the application `app`.
pub fn is_agent_of(agent_kind: &str, app: &str) -> (r: bool)
    ensures
        r == belongs_to(agent_kind@, app@),
{
    if text::same_text(agent_kind, "cc") {
        return true;
    }
    let long = text::joined(app, "-code");
    text::same_text(agent_kind, long.as_str())
}

/// The one name of an agent's kind.
pub fn canonical_cindy_agent_kind(agent_kind: &str, app: &str) -> (r: String)
    ensures
        r@ == canonical_agent(agent_kind@, app@),
{
    if is_agent_of(agent_kind, app) {
        text::joined(app, "-code")
    } else {
        agent_kind.to_owned()
    }
}

/// The provider that stands for an agent.
pub fn cindy_provider_id(agent_kind: &str, app: &str) -> (r: String)
    ensures
        r@ == provider_of(agent_kind@, app@),
{
    if is_agent_of(agent_kind, app) {
        text::joined3("_cindy_", app, "_code")
    } else if text::same_text(agent_kind, "codex") {
        "_cindy_codex".to_owned()
    } else if text::same_text(agent_kind, "pi") {
        "_cindy_pi".to_owned()
    } else {
        usage::CINDY_PROVIDER_ID.to_owned()
    }
}

/// The application that may log an agent's calls too.
pub fn cindy_upstream_app(agent_kind: &str, app: &str) -> (r: Option<String>)
    ensures
        text::opt_text(r) == upstream_app(agent_kind@, app@),
{
    if text::same_text(agent_kind, "codex") {
        Some("codex".to_owned())
    } else if is_agent_of(agent_kind, app) {
        Some(app.to_owned())
    } else if text::same_text(agent_kind, "pi") {
        Some("pi".to_owned())
    } else {
        None
    }
}

/// An agent goes by the same names, whichever name of its kind they are
/// looked up with.
pub proof fn law_agent_has_one_name(agent_kind: Seq<char>, app: Seq<char>)
    ensures
        canonical_agent(canonical_agent(agent_kind, app), app) == canonical_agent(agent_kind, app),
        provider_of(canonical_agent(agent_kind, app), app) == provider_of(agent_kind, app),
        upstream_app(canonical_agent(agent_kind, app), app) == upstream_app(agent_kind, app),
{
    if belongs_to(agent_kind, app) {
        reveal_strlit("-code");
        reveal_strlit("codex");
        reveal_strlit("cc");
        let long = app + "-code"@;
        assert(long.last() == 'e');
        assert("codex"@.last() == 'x');
        assert(long != "codex"@);
        assert("cc"@.len() != "codex"@.len());
    }
}

/// The names of all agents: of the application's own, under either name of its
/// kind, of Codex, of Pi, and of any other.
pub proof fn law_names_of_agents(agent_kind: Seq<char>, app: Seq<char>)
    ensures
        agent_kind == "cc"@ || agent_kind == app + "-code"@ ==> {
            &&& canonical_agent(agent_kind, app) == app + "-code"@
            &&& provider_of(agent_kind, app) == "_cindy_"@ + app + "_code"@
            &&& upstream_app(agent_kind, app) == Some(app)
        },
        agent_kind == "codex"@ ==> {
            &&& canonical_agent(agent_kind, app) == "codex"@
            &&& provider_of(agent_kind, app) == "_cindy_codex"@
            &&& upstream_app(agent_kind, app) == Some("codex"@)
        },
        agent_kind == "pi"@ ==> {
            &&& canonical_agent(agent_kind, app) == "pi"@
            &&& provider_of(agent_kind, app) == "_cindy_pi"@
            &&& upstream_app(agent_kind, app) == Some("pi"@)
        },
        agent_kind != "cc"@ && agent_kind != app + "-code"@ && agent_kind != "codex"@ && agent_kind
            != "pi"@ ==> {
            &&& canonical_agent(agent_kind, app) == agent_kind
            &&& provider_of(agent_kind, app) == usage::CINDY_PROVIDER_ID@
            &&& upstream_app(agent_kind, app) is None
        },
{
    reveal_strlit("-code");
    reveal_strlit("codex");
    reveal_strlit("cc");
    reveal_strlit("pi");
    let long = app + "-code"@;
    assert(long.len() >= 5);
    assert(long.last() == 'e');
    assert("codex"@.last() == 'x');
    assert("pi"@[0] == 'p' && "cc"@[0] == 'c');
}

/// A model's name without what says how it is paid for.
pub open spec fn without_billing(model: Seq<char>) -> Seq<char> {
    match text::parted(model, "#billing="@) {
        Some(parts) => text::trimmed(parts.0),
        None => model,
    }
}

/// A model's name without the mark of its long context window.
pub open spec fn without_window(model: Seq<char>) -> Seq<char> {
    match text::before_suffix(model, "[1m]"@) {
        Some(base) => text::trimmed_end(base),
        None => model,
    }
}

/// The name that variants of a model share.
pub open spec fn canonical_model(model: Seq<char>) -> Seq<char> {
    let name = without_window(without_billing(text::trimmed(model)));
    if name.len() == 0 {
        "unknown"@
    } else {
        name
    }
}

/// The name that variants of a model share.
pub fn canonical_cindy_model(model: &str) -> (r: String)
    ensures
        r@ == canonical_model(model@),
{
    let mut canonical = text::trim(model);
    if let Some(parts) = text::split_once(canonical.as_str(), "#billing=") {
        canonical = text::trim(parts.0.as_str());
    }
    if let Some(base) = text::strip_suffix(canonical.as_str(), "[1m]") {
        canonical = text::trim_end(base.as_str());
    }
    if canonical.as_str().is_empty() {
        "unknown".to_owned()
    } else {
        canonical
    }
}

/// How a model's name says that it is paid for.
pub open spec fn billing_kind(model: Seq<char>) -> Option<CindyBillingKind> {
    match text::parted_last(model, "#billing="@) {
        Some(parts) => {
            let billing = text::ascii_lowered(text::trimmed(parts.1));
            if billing == "api"@ {
                Some(CindyBillingKind::Api)
            } else if billing == "subscription"@ {
                Some(CindyBillingKind::Subscription)
            } else {
                None
            }
        },
        None => None,
    }
}

pub fn cindy_billing_kind_from_model(model: &str) -> (r: Option<CindyBillingKind>)
    ensures
        r == billing_kind(model@),
{
    match text::rsplit_once(model, "#billing=") {
        Some(parts) => {
            let billing = text::to_ascii_lowercase(text::trim(parts.1.as_str()).as_str());
            if text::same_text(billing.as_str(), "api") {
                Some(CindyBillingKind::Api)
            } else if text::same_text(billing.as_str(), "subscription") {
                Some(CindyBillingKind::Subscription)
            } else {
                None
            }
        },
        None => None,
    }
}

/// The dollars of a daily total, before they are added up.
#[derive(Clone, Copy, Debug, PartialEq, Eq, Structural)]
pub enum CindyCost {
    /// No dollars are known.
    Nothing,
    /// The one amount.
    Amount(u64),
    /// The sum of two amounts.
    Sum(u64, u64),
}

/// An amount, or zero where it is not finite or negative.
pub open spec fn amount_or_zero(bits: u64) -> u64 {
    match usage::usable_cost(Some(bits)) {
        Some(amount) => amount,
        None => 0,
    }
}

/// The dollars of a daily total. Amounts of another currency are not dollars;
/// they do not leave the older dollar amount standing either.
pub open spec fn daily_cost(usage: CindyDailyUsage) -> CindyCost {
    let older = amount_or_zero(usage.cost_usd);
    let current = amount_or_zero(usage.cost_amount);
    if text::ascii_lowered(usage.cost_currency@) == text::ascii_lowered("USD"@) {
        CindyCost::Sum(older, current)
    } else if usage.cost_is_approximate || !usage::zero_bits(current) {
        CindyCost::Nothing
    } else {
        CindyCost::Amount(older)
    }
}

/// The dollars of a daily total.
pub fn cindy_cost_usd(usage: &CindyDailyUsage) -> (r: CindyCost)
    ensures
        r == daily_cost(*usage),
{
    let older: u64 = match usage::finite_non_negative(Some(usage.cost_usd)) {
        Some(amount) => amount,
        None => 0,
    };
    let current: u64 = match usage::finite_non_negative(Some(usage.cost_amount)) {
        Some(amount) => amount,
        None => 0,
    };
    if text::eq_ignore_ascii_case(usage.cost_currency.as_str(), "USD") {
        CindyCost::Sum(older, current)
    } else if usage.cost_is_approximate || !usage::is_zero_cost(current) {
        CindyCost::Nothing
    } else {
        CindyCost::Amount(older)
    }
}

proof fn lemma_trimmed_is_whole(s: Seq<char>)
    requires
        s.len() > 0,
        !text::white_space(s[0]),
        !text::white_space(s.last()),
    ensures
        text::trimmed(s) == s,
        text::trimmed_end(s) == s,
{
    assert(s[s.len() - 1] == s.last());
}

/// Where `mark` stands in no place of `base` and does not overlap itself, it
/// stands first behind `base`.
proof fn lemma_mark_behind(base: Seq<char>, mark: Seq<char>, rest: Seq<char>)
    requires
        mark.len() > 0,
        forall|k: int| 0 < k < mark.len() ==> #[trigger] mark[k] != mark[0],
        !text::has(base, mark),
    ensures
        text::parted(base + mark + rest, mark) == Some((base, rest)),
{
    let s = base + mark + rest;
    let at = base.len() as int;
    text::law_found(s, mark);
    text::law_found(base, mark);
    assert(s.subrange(at, at + mark.len()) =~= mark);
    assert(text::occurs_at(s, mark, at));
    assert forall|j: int| text::occurs_at(s, mark, j) implies base.len() <= j by {
        if j < base.len() {
            if j + mark.len() <= base.len() {
                assert(base.subrange(j, j + mark.len()) =~= s.subrange(j, j + mark.len()));
                assert(text::occurs_at(base, mark, j));
            } else {
                let k = base.len() - j;
                assert(s.subrange(j, j + mark.len())[k] == s[base.len() as int]);
                assert(mark[k] == mark[0]);
            }
        }
    }
    assert(text::found(s, mark) == Some(at));
    assert(s.subrange(0, at) =~= base);
    assert(s.subrange(at + mark.len(), s.len() as int) =~= rest);
}

/// Where `mark` stands in no place of `base`, and none of its characters is in
/// `rest`, it stands in no place of both together.
proof fn lemma_no_mark(base: Seq<char>, mark: Seq<char>, rest: Seq<char>)
    requires
        mark.len() > 0,
        !text::has(base, mark),
        forall|i: int, k: int|
            0 <= i < mark.len() && 0 <= k < rest.len() ==> #[trigger] mark[i] != #[trigger] rest[k],
    ensures
        !text::has(base + rest, mark),
{
    let s = base + rest;
    text::law_found(s, mark);
    text::law_found(base, mark);
    if text::has(s, mark) {
        let j = text::found(s, mark)->0;
        if j + mark.len() <= base.len() {
            assert(base.subrange(j, j + mark.len()) =~= s.subrange(j, j + mark.len()));
            assert(text::occurs_at(base, mark, j));
        } else {
            let last = mark.len() - 1;
            let k = j + last - base.len();
            assert(s.subrange(j, j + mark.len())[last] == s[j + last]);
            assert(s[j + last] == rest[k]);
            assert(mark[last] == rest[k]);
        }
    }
}

/// A model and its variants share one name: that of the model, without the
/// mark of its long context window, without what says how it is paid for, and
/// without white space around it. A blank name is unknown.
pub proof fn law_variants_share_a_name(base: Seq<char>, kind: Seq<char>, blank: Seq<char>)
    requires
        base.len() > 0,
        !text::white_space(base[0]),
        !text::white_space(base.last()),
        !text::has(base, "#billing="@),
        !text::finishes(base, "[1m]"@),
        text::blank(blank),
        kind.len() > 0,
        !text::white_space(kind.last()),
    ensures
        canonical_model(base) == base,
        canonical_model(base + "[1m]"@) == base,
        canonical_model(base + "#billing="@ + kind) == base,
        canonical_model(base + "[1m]"@ + "#billing="@ + kind) == base,
        canonical_model(blank) == "unknown"@,
{
    reveal_strlit("#billing=");
    reveal_strlit("[1m]");
    let mark = "#billing="@;
    let window = "[1m]"@;
    assert(mark.len() == 9 && window.len() == 4);
    assert(mark[0] == '#');
    let long = base + window;
    lemma_trimmed_is_whole(base);
    assert(long.last() == ']' && long[0] == base[0]);
    lemma_trimmed_is_whole(long);
    lemma_no_mark(base, mark, window);
    text::law_strip(base, window);
    let paid = base + mark + kind;
    assert(paid[0] == base[0] && paid.last() == kind.last());
    lemma_trimmed_is_whole(paid);
    lemma_mark_behind(base, mark, kind);
    let both = long + mark + kind;
    assert(both[0] == base[0] && both.last() == kind.last());
    lemma_trimmed_is_whole(both);
    lemma_mark_behind(long, mark, kind);
    assert(text::trimmed(blank) =~= Seq::<char>::empty());
    let nothing = Seq::<char>::empty();
    text::law_found(nothing, mark);
    assert(!text::has(nothing, mark));
    assert(!text::finishes(nothing, window));
}

/// A model's name says behind the last mark how it is paid for: as an API, or
/// as a subscription, in letters of either case and with white space around.
/// Any other word, and a name without the mark, says nothing.
pub proof fn law_names_say_how_models_are_paid_for(
    base: Seq<char>,
    kind: Seq<char>,
    plain: Seq<char>,
)
    requires
        !text::has(kind, "#billing="@),
        !text::has(plain, "#billing="@),
    ensures
        ({
            let word = text::ascii_lowered(text::trimmed(kind));
            &&& word == "api"@ ==> billing_kind(base + "#billing="@ + kind) == Some(
                CindyBillingKind::Api,
            )
            &&& word == "subscription"@ ==> billing_kind(base + "#billing="@ + kind) == Some(
                CindyBillingKind::Subscription,
            )
            &&& word != "api"@ && word != "subscription"@ ==> billing_kind(
                base + "#billing="@ + kind,
            ) is None
            &&& billing_kind(plain) is None
        }),
{
    reveal_strlit("#billing=");
    reveal_strlit("api");
    reveal_strlit("subscription");
    assert("api"@.len() != "subscription"@.len());
    let mark = "#billing="@;
    assert(mark[0] == '#');
    assert forall|k: int| 0 < k < mark.len() implies #[trigger] mark[k] != mark[0] by {}
    lemma_last_mark_behind(base, mark, kind);
    text::law_found(plain, mark);
    assert(text::found_last(plain, mark) is None);
}

/// Where `mark` stands in no place of `rest` and does not overlap itself, it
/// stands last before `rest`.
#[verifier::spinoff_prover]
#[verifier::rlimit(60)]
proof fn lemma_last_mark_behind(base: Seq<char>, mark: Seq<char>, rest: Seq<char>)
    requires
        mark.len() > 0,
        forall|k: int| 0 < k < mark.len() ==> #[trigger] mark[k] != mark[0],
        !text::has(rest, mark),
    ensures
        text::parted_last(base + mark + rest, mark) == Some((base, rest)),
{
    let s = base + mark + rest;
    let at = base.len() as int;
    text::law_found(s, mark);
    text::law_found(rest, mark);
    assert(s.subrange(at, at + mark.len()) =~= mark);
    assert(text::occurs_at(s, mark, at));
    assert forall|j: int| text::occurs_at(s, mark, j) implies j <= at by {
        if j > at {
            if j >= at + mark.len() {
                let k = j - at - mark.len();
                assert(rest.subrange(k, k + mark.len()) =~= s.subrange(j, j + mark.len()));
                assert(text::occurs_at(rest, mark, k));
            } else {
                assert(s.subrange(j, j + mark.len())[0] == s[j]);
                assert(s[j] == mark[j - at]);
            }
        }
    }
    assert(text::found_last(s, mark) == Some(at));
    assert(s.subrange(0, at) =~= base);
    assert(s.subrange(at + mark.len(), s.len() as int) =~= rest);
}

/// The dollars of a daily row: where the newer amount is in dollars, both
/// amounts add up; where it is of another currency and not zero, or only
/// approximate, nothing is known; and otherwise the older amount stands. An
/// amount that is not finite or below zero counts as zero.
pub proof fn law_dollars_of_a_day(usage: CindyDailyUsage)
    ensures
        ({
            let older = if usage.cost_usd < 0x7ff0_0000_0000_0000 || usage.cost_usd
                == 0x8000_0000_0000_0000 {
                usage.cost_usd
            } else {
                0
            };
            let newer = if usage.cost_amount < 0x7ff0_0000_0000_0000 || usage.cost_amount
                == 0x8000_0000_0000_0000 {
                usage.cost_amount
            } else {
                0
            };
            let dollars = text::ascii_lowered(usage.cost_currency@) == text::ascii_lowered("USD"@);
            &&& dollars ==> daily_cost(usage) == CindyCost::Sum(older, newer)
            &&& !dollars && usage.cost_is_approximate ==> daily_cost(usage) == CindyCost::Nothing
            &&& !dollars && newer != 0 && newer != 0x8000_0000_0000_0000 ==> daily_cost(usage)
                == CindyCost::Nothing
            &&& !dollars && !usage.cost_is_approximate && (newer == 0 || newer
                == 0x8000_0000_0000_0000) ==> daily_cost(usage) == CindyCost::Amount(older)
        }),
{
}

/// The tokens of a daily row are its four counts, and those below zero count
/// as zero; the tokens of a turn are its four counts.
pub proof fn law_tokens_of_rows_and_turns(row: CindyDailyUsage, turn: CindyTurnUsage)
    ensures
        row.input_tokens >= 0 ==> daily_tokens(row).input == row.input_tokens,
        row.output_tokens >= 0 ==> daily_tokens(row).output == row.output_tokens,
        row.cache_read_tokens >= 0 ==> daily_tokens(row).cache_read == row.cache_read_tokens,
        row.cache_create_tokens >= 0 ==> daily_tokens(row).cache_create == row.cache_create_tokens,
        row.input_tokens < 0 ==> daily_tokens(row).input == 0,
        row.output_tokens < 0 ==> daily_tokens(row).output == 0,
        row.cache_read_tokens < 0 ==> daily_tokens(row).cache_read == 0,
        row.cache_create_tokens < 0 ==> daily_tokens(row).cache_create == 0,
        turn_tokens(turn).input == turn.input_tokens,
        turn_tokens(turn).output == turn.output_tokens,
        turn_tokens(turn).cache_read == turn.cache_read_tokens,
        turn_tokens(turn).cache_create == turn.cache_create_tokens,
{
}

} // verus!
