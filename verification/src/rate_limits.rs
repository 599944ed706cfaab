//! Quota windows as the account service reports them.

use vstd::prelude::*;

use crate::account::copy_text;
use crate::error::{AppError, ErrorModel};
use crate::json::{
    fields_model, has_name, in_name_order, lemma_in_name_order, order_fields, whole_bits, Json,
    JsonModel, NumberModel,
};
use crate::text::{
    begins, decimal, decimal_text, ends, lemma_decimals_are_apart, same_text, sorts_before, text_of,
    trim_text, trimmed,
};
use crate::time::{
    lemma_toward_zero, seconds_in, timestamp_from_unknown_unit, Timestamp, FIRST_SECOND, LAST_SECOND,
};

verus! {

/// The bits of the double 100.
pub const HUNDRED_BITS: u64 = 0x4059_0000_0000_0000;

/// The bits of the double zero with a minus sign.
pub const MINUS_ZERO_BITS: u64 = 0x8000_0000_0000_0000;

/// One window of a limit. The used percentage is a double, given by its bits,
/// from 0 to 100.
#[derive(Debug, PartialEq, Eq)]
pub struct QuotaWindow {
    pub limit_id: Option<String>,
    pub official_name: Option<String>,
    pub local_name: String,
    pub kind: String,
    pub used_percent_bits: u64,
    pub window_duration_minutes: Option<i64>,
    pub resets_at: Option<Timestamp>,
    pub exhausted: bool,
}

/// What a window says.
#[verifier::ext_equal]
pub struct WindowModel {
    pub limit_id: Option<Seq<char>>,
    pub official_name: Option<Seq<char>>,
    pub local_name: Seq<char>,
    pub kind: Seq<char>,
    pub used_percent_bits: u64,
    pub window_duration_minutes: Option<i64>,
    pub resets_at: Option<Timestamp>,
    pub exhausted: bool,
}

impl QuotaWindow {
    /// What the window says.
    pub open spec fn view(self) -> WindowModel {
        WindowModel {
            limit_id: text_of(self.limit_id),
            official_name: text_of(self.official_name),
            local_name: self.local_name@,
            kind: self.kind@,
            used_percent_bits: self.used_percent_bits,
            window_duration_minutes: self.window_duration_minutes,
            resets_at: self.resets_at,
            exhausted: self.exhausted,
        }
    }
}

/// Token activity of an account.
#[derive(Debug, Clone, Copy, PartialEq, Eq)]
pub struct TokenUsageSummary {
    pub lifetime_tokens: Option<i64>,
    pub current_streak_days: Option<i64>,
    pub longest_streak_days: Option<i64>,
    pub peak_daily_tokens: Option<i64>,
    pub longest_running_turn_seconds: Option<i64>,
}

/// All that was learnt of the limits of an account at one time.
#[derive(Debug, PartialEq, Eq)]
pub struct QuotaSnapshot {
    pub queried_at: Timestamp,
    pub windows: Vec<QuotaWindow>,
    pub rate_limit_reached_type: Option<String>,
    pub spend_control_reached: Option<bool>,
    pub reset_credits_available: Option<i64>,
    pub token_usage: Option<TokenUsageSummary>,
}

/// What a snapshot says.
#[verifier::ext_equal]
pub struct SnapshotModel {
    pub queried_at: Timestamp,
    pub windows: Seq<WindowModel>,
    pub rate_limit_reached_type: Option<Seq<char>>,
    pub spend_control_reached: Option<bool>,
    pub reset_credits_available: Option<i64>,
    pub token_usage: Option<TokenUsageSummary>,
}

/// What every window of a list says.
pub open spec fn window_models(windows: Seq<QuotaWindow>) -> Seq<WindowModel> {
    Seq::new(windows.len(), |i: int| windows[i]@)
}

impl QuotaSnapshot {
    /// What the snapshot says.
    pub open spec fn view(self) -> SnapshotModel {
        SnapshotModel {
            queried_at: self.queried_at,
            windows: window_models(self.windows@),
            rate_limit_reached_type: text_of(self.rate_limit_reached_type),
            spend_control_reached: self.spend_control_reached,
            reset_credits_available: self.reset_credits_available,
            token_usage: self.token_usage,
        }
    }
}

/// The double nearest to another that lies from 0 to 100.
pub open spec fn clamped(bits: u64) -> u64 {
    if bits > MINUS_ZERO_BITS {
        0
    } else if HUNDRED_BITS < bits < MINUS_ZERO_BITS {
        HUNDRED_BITS
    } else {
        bits
    }
}

/// Whether a double is at least 100.
pub open spec fn is_used_up(bits: u64) -> bool {
    HUNDRED_BITS <= bits < MINUS_ZERO_BITS
}

/// A clamped percentage lies from 0 to 100, stays when it is clamped again, and
/// is exactly 100 where the percentage was at least that.
pub proof fn lemma_clamped(bits: u64)
    ensures
        clamped(bits) <= HUNDRED_BITS || clamped(bits) == MINUS_ZERO_BITS,
        clamped(clamped(bits)) == clamped(bits),
        is_used_up(bits) <==> clamped(bits) == HUNDRED_BITS,
{
}

/// A number of minutes in words.
pub open spec fn duration_words(minutes: int) -> Seq<char> {
    if minutes == 60 {
        "1 小时"@
    } else if minutes == 300 {
        "5 小时"@
    } else if minutes == 1_440 {
        "每日"@
    } else if minutes == 10_080 {
        "每周"@
    } else if minutes % 1_440 == 0 {
        decimal(minutes / 1_440) + " 天窗口"@
    } else if minutes % 60 == 0 {
        decimal(minutes / 60) + " 小时窗口"@
    } else {
        decimal(minutes) + " 分钟窗口"@
    }
}

/// No two lengths of a window share a label.
pub proof fn lemma_labels_are_apart(a: int, b: int)
    requires
        duration_words(a) == duration_words(b),
    ensures
        a == b,
{
    reveal_strlit("1 小时");
    reveal_strlit("5 小时");
    reveal_strlit("每日");
    reveal_strlit("每周");
    let x = lemma_label_shape(a);
    let y = lemma_label_shape(b);
    let words = duration_words(a);
    if x.1.len() > 0 && y.1.len() > 0 {
        assert(x.1 == y.1);
        assert(words.take(words.len() - x.1.len()) =~= decimal(x.0));
        assert(words.take(words.len() - y.1.len()) =~= decimal(y.0));
        lemma_decimals_are_apart(x.0, y.0);
    } else {
        assert(x.1.len() == 0 && y.1.len() == 0);
        assert("1 小时"@[0] != "5 小时"@[0]);
        assert("每日"@[1] != "每周"@[1]);
        assert("1 小时"@.len() == 4 && "5 小时"@.len() == 4);
        assert("每日"@.len() == 2 && "每周"@.len() == 2);
    }
}

/// The number and the unit of a label, where it has those.
proof fn lemma_label_shape(minutes: int) -> (r: (int, Seq<char>))
    ensures
        ({
            let words = duration_words(minutes);
            let named = minutes == 60 || minutes == 300 || minutes == 1_440 || minutes == 10_080;
            &&& named ==> r.1.len() == 0 && words.last() != '口'
            &&& !named ==> r.1.len() >= 4 && words == decimal(r.0) + r.1 && words.last() == '口'
            &&& !named ==> words[words.len() - 3] == r.1[r.1.len() - 3]
            &&& !named ==> (r.1 == " 天窗口"@ && minutes == 1_440 * r.0 && r.1[r.1.len() - 3] == '天')
                || (r.1 == " 小时窗口"@ && minutes == 60 * r.0 && r.1[r.1.len() - 3] == '时') || (r.1
                == " 分钟窗口"@ && minutes == r.0 && r.1[r.1.len() - 3] == '钟')
        }),
{
    reveal_strlit("1 小时");
    reveal_strlit("5 小时");
    reveal_strlit("每日");
    reveal_strlit("每周");
    reveal_strlit(" 天窗口");
    reveal_strlit(" 小时窗口");
    reveal_strlit(" 分钟窗口");
    if minutes == 60 || minutes == 300 || minutes == 1_440 || minutes == 10_080 {
        (0, Seq::empty())
    } else if minutes % 1_440 == 0 {
        (minutes / 1_440, " 天窗口"@)
    } else if minutes % 60 == 0 {
        (minutes / 60, " 小时窗口"@)
    } else {
        (minutes, " 分钟窗口"@)
    }
}

fn divides(d: i64, n: i64) -> (r: bool)
    requires
        d > 0,
    ensures
        r == (n as int % d as int == 0),
{
    let m: i128 = if n >= 0 {
        n as i128
    } else {
        -(n as i128)
    };
    assert(m as int % d as int == 0 <==> n as int % d as int == 0) by {
        if n < 0 {
            lemma_negated_multiple(m as int, d as int);
        }
    }
    m % (d as i128) == 0
}

proof fn lemma_negated_multiple(m: int, d: int)
    requires
        d > 0,
    ensures
        m % d == 0 <==> (-m) % d == 0,
        m % d == 0 ==> (-m) / d == -(m / d),
{
    vstd::arithmetic::div_mod::lemma_fundamental_div_mod(m, d);
    vstd::arithmetic::div_mod::lemma_fundamental_div_mod(-m, d);
    if m % d == 0 {
        assert(-m == d * (-(m / d))) by (nonlinear_arith)
            requires
                m == d * (m / d),
        ;
        vstd::arithmetic::div_mod::lemma_fundamental_div_mod_converse(-m, d, -(m / d), 0);
    }
    if (-m) % d == 0 {
        assert(m == d * (-((-m) / d))) by (nonlinear_arith)
            requires
                -m == d * ((-m) / d),
        ;
        vstd::arithmetic::div_mod::lemma_fundamental_div_mod_converse(m, d, -((-m) / d), 0);
    }
}

fn exact_quotient(n: i64, d: i64) -> (r: i64)
    requires
        d > 1,
        n as int % d as int == 0,
    ensures
        r == n as int / d as int,
{
    if n >= 0 {
        return n / d;
    }
    let m: i128 = -(n as i128);
    proof {
        lemma_negated_multiple(m as int, d as int);
        assert(0 <= (m as int) / (d as int) <= m) by (nonlinear_arith)
            requires
                m >= 0,
                d > 1,
        ;
    }
    let q: i128 = m / (d as i128);
    (-q) as i64
}

/// A number of minutes in words.
pub fn duration_label(minutes: i64) -> (r: String)
    ensures
        r@ == duration_words(minutes as int),
{
    if minutes == 60 {
        return "1 小时".to_owned();
    }
    if minutes == 300 {
        return "5 小时".to_owned();
    }
    if minutes == 1_440 {
        return "每日".to_owned();
    }
    if minutes == 10_080 {
        return "每周".to_owned();
    }
    let (number, unit) = if divides(1_440, minutes) {
        (exact_quotient(minutes, 1_440), " 天窗口")
    } else if divides(60, minutes) {
        (exact_quotient(minutes, 60), " 小时窗口")
    } else {
        (minutes, " 分钟窗口")
    };
    let mut out = decimal_text(number);
    out.append(unit);
    out
}

/// The name under which a window is shown.
pub open spec fn window_words(
    official_name: Option<Seq<char>>,
    limit_id: Option<Seq<char>>,
    duration: Option<i64>,
    kind: Seq<char>,
) -> Seq<char> {
    let bucket = if kind == "primary"@ {
        "主要额度窗口"@
    } else {
        "次要额度窗口"@
    };
    if official_name is Some && trimmed(official_name->0).len() > 0 {
        match duration {
            Some(minutes) => official_name->0 + " · "@ + duration_words(minutes as int),
            None => official_name->0,
        }
    } else if duration is Some {
        duration_words(duration->0 as int)
    } else if limit_id is Some && limit_id->0.len() > 0 {
        bucket + " · "@ + limit_id->0
    } else {
        bucket
    }
}

fn window_name(
    official_name: &Option<String>,
    limit_id: &Option<String>,
    duration: Option<i64>,
    kind: &str,
) -> (r: String)
    ensures
        r@ == window_words(text_of(*official_name), text_of(*limit_id), duration, kind@),
{
    if let Some(name) = official_name {
        if !trim_text(name.as_str()).as_str().is_empty() {
            let mut out = name.clone();
            if let Some(minutes) = duration {
                out.append(" · ");
                out.append(duration_label(minutes).as_str());
            }
            return out;
        }
    }
    if let Some(minutes) = duration {
        return duration_label(minutes);
    }
    let mut out = if same_text(kind, "primary") {
        "主要额度窗口".to_owned()
    } else {
        "次要额度窗口".to_owned()
    };
    if let Some(id) = limit_id {
        if !id.as_str().is_empty() {
            out.append(" · ");
            out.append(id.as_str());
        }
    }
    out
}

/// The limits of a response, each with its identifier: those of the map by
/// identifier where that has any, else the one limit of the older field.
pub open spec fn reported_limits(result: JsonModel) -> Option<
    Seq<(Option<Seq<char>>, JsonModel)>,
> {
    let by_id = match result.field("rateLimitsByLimitId"@) {
        Some(JsonModel::Object(fields)) => in_name_order(fields),
        _ => Seq::empty(),
    };
    if by_id.len() > 0 {
        Some(Seq::new(by_id.len(), |i: int| (Some(by_id[i].0), by_id[i].1)))
    } else {
        match result.field("rateLimits"@) {
            Some(limit) => Some(seq![(limit.text_field("limitId"@), limit)]),
            None => None,
        }
    }
}

/// The point in time that a number of unknown unit gives.
pub open spec fn moment(raw: Option<i64>) -> Option<Timestamp> {
    match raw {
        Some(n) => if FIRST_SECOND <= seconds_in(n as int) <= LAST_SECOND {
            Some(Timestamp { seconds: seconds_in(n as int) as i64, nanos: 0 })
        } else {
            None
        },
        None => None,
    }
}

/// The window of a kind that a limit has: where it is there and says how much
/// is used.
pub open spec fn window_in(
    limit_id: Option<Seq<char>>,
    limit: JsonModel,
    kind: Seq<char>,
) -> Option<WindowModel> {
    match limit.field(kind) {
        Some(window) => match window.field("usedPercent"@) {
            Some(used) => match used.bits() {
                Some(bits) => {
                    let duration = match window.signed_field("windowDurationMins"@) {
                        Some(minutes) if minutes > 0 => Some(minutes),
                        _ => None,
                    };
                    let official_name = limit.text_field("limitName"@);
                    Some(
                        WindowModel {
                            limit_id,
                            official_name,
                            local_name: window_words(official_name, limit_id, duration, kind),
                            kind,
                            used_percent_bits: clamped(bits),
                            window_duration_minutes: duration,
                            resets_at: moment(window.signed_field("resetsAt"@)),
                            exhausted: is_used_up(bits),
                        },
                    )
                },
                None => None,
            },
            None => None,
        },
        None => None,
    }
}

/// The whole number that the window of a kind says is used.
pub open spec fn whole_used(limit: JsonModel, kind: Seq<char>) -> Option<int> {
    match limit.field(kind) {
        Some(window) => match window.field("usedPercent"@) {
            Some(JsonModel::Number(NumberModel::Whole(n))) => Some(n),
            _ => None,
        },
        None => None,
    }
}

/// Whether the window of a kind stands to a whole number that it was read from
/// as it should: it is exhausted exactly from 100 on, shows 0 below 0 and 100
/// above 100, and the number itself in between.
pub open spec fn judges_whole(
    limit_id: Option<Seq<char>>,
    limit: JsonModel,
    kind: Seq<char>,
) -> bool {
    whole_used(limit, kind) matches Some(n) ==> (window_in(limit_id, limit, kind) matches Some(w) && (
    w.exhausted <==> n >= 100) && (n >= 100 ==> w.used_percent_bits == HUNDRED_BITS) && (n < 0
        ==> w.used_percent_bits == 0) && (0 <= n < 100 ==> w.used_percent_bits == whole_bits(n)))
}

/// Whether all windows of the limits stand to whole numbers as they should.
pub open spec fn all_judge_whole(limits: Seq<(Option<Seq<char>>, JsonModel)>) -> bool {
    forall|i: int|
        0 <= i < limits.len() ==> judges_whole((#[trigger] limits[i]).0, limits[i].1, "primary"@)
            && judges_whole(limits[i].0, limits[i].1, "secondary"@)
}

/// A list with what there is of an optional item at its end.
pub open spec fn push_some<T>(list: Seq<T>, item: Option<T>) -> Seq<T> {
    match item {
        Some(x) => list.push(x),
        None => list,
    }
}

/// The windows of the limits, the primary one of each before its secondary one.
pub open spec fn windows_in(limits: Seq<(Option<Seq<char>>, JsonModel)>) -> Seq<WindowModel>
    decreases limits.len(),
{
    if limits.len() == 0 {
        Seq::empty()
    } else {
        let (id, limit) = limits.last();
        push_some(
            push_some(windows_in(limits.drop_last()), window_in(id, limit, "primary"@)),
            window_in(id, limit, "secondary"@),
        )
    }
}

/// The first kind of limit that was reached.
pub open spec fn reached_in(limits: Seq<(Option<Seq<char>>, JsonModel)>) -> Option<Seq<char>>
    decreases limits.len(),
{
    if limits.len() == 0 {
        None
    } else {
        match reached_in(limits.drop_last()) {
            Some(s) => Some(s),
            None => limits.last().1.text_field("rateLimitReachedType"@),
        }
    }
}

/// The first statement on whether the spending limit was reached.
pub open spec fn spend_in(limits: Seq<(Option<Seq<char>>, JsonModel)>) -> Option<bool>
    decreases limits.len(),
{
    if limits.len() == 0 {
        None
    } else {
        match spend_in(limits.drop_last()) {
            Some(b) => Some(b),
            None => limits.last().1.flag_field("spendControlReached"@),
        }
    }
}

/// The number of resets that are left.
pub open spec fn credits_in(result: JsonModel) -> Option<i64> {
    match result.field("rateLimitResetCredits"@) {
        Some(credits) => credits.signed_field("availableCount"@),
        None => None,
    }
}

/// What a response says of an account's limits, if it says anything.
pub open spec fn snapshot_in(result: JsonModel, now: Timestamp) -> Option<SnapshotModel> {
    match reported_limits(result) {
        Some(limits) => Some(
            SnapshotModel {
                queried_at: now,
                windows: windows_in(limits),
                rate_limit_reached_type: reached_in(limits),
                spend_control_reached: spend_in(limits),
                reset_credits_available: credits_in(result),
                token_usage: None,
            },
        ),
        None => None,
    }
}

fn clamp_percentage(bits: u64) -> (r: u64)
    ensures
        r == clamped(bits),
{
    if bits > MINUS_ZERO_BITS {
        0
    } else if HUNDRED_BITS < bits && bits < MINUS_ZERO_BITS {
        HUNDRED_BITS
    } else {
        bits
    }
}

fn parse_window(limit_id: &Option<String>, limit: &Json, kind: &str) -> (r: Option<QuotaWindow>)
    ensures
        match r {
            Some(w) => window_in(text_of(*limit_id), limit@, kind@) == Some(w@),
            None => window_in(text_of(*limit_id), limit@, kind@) is None,
        },
        judges_whole(text_of(*limit_id), limit@, kind@),
{
    let window = match limit.get(kind) {
        Some(window) => window,
        None => {
            return None;
        },
    };
    let bits: u64 = match window.get("usedPercent") {
        Some(used) => match used.as_bits() {
            Some(bits) => bits,
            None => {
                return None;
            },
        },
        None => {
            return None;
        },
    };
    let duration: Option<i64> = match window.signed_field("windowDurationMins") {
        Some(minutes) => if minutes > 0 {
            Some(minutes)
        } else {
            None
        },
        None => None,
    };
    let resets_at: Option<Timestamp> = match window.signed_field("resetsAt") {
        Some(raw) => timestamp_from_unknown_unit(raw),
        None => None,
    };
    let official_name = limit.text_field("limitName");
    let local_name = window_name(&official_name, limit_id, duration, kind);
    Some(
        QuotaWindow {
            limit_id: copy_text(limit_id),
            official_name,
            local_name,
            kind: kind.to_owned(),
            used_percent_bits: clamp_percentage(bits),
            window_duration_minutes: duration,
            resets_at,
            exhausted: HUNDRED_BITS <= bits && bits < MINUS_ZERO_BITS,
        },
    )
}

fn parse_limits(
    limits: &Vec<(Option<String>, Json)>,
    now: Timestamp,
    credits: Option<i64>,
) -> (r: QuotaSnapshot)
    ensures
        r@ == (SnapshotModel {
            queried_at: now,
            windows: windows_in(limit_models(limits@)),
            rate_limit_reached_type: reached_in(limit_models(limits@)),
            spend_control_reached: spend_in(limit_models(limits@)),
            reset_credits_available: credits,
            token_usage: None,
        }),
        all_judge_whole(limit_models(limits@)),
{
    let ghost all = limit_models(limits@);
    let mut windows: Vec<QuotaWindow> = Vec::new();
    let mut reached: Option<String> = None;
    let mut spend: Option<bool> = None;
    let mut i: usize = 0;
    assert(all.take(0) =~= Seq::empty());
    assert(window_models(windows@) =~= Seq::empty());
    while i < limits.len()
        invariant
            all == limit_models(limits@),
            i <= limits@.len(),
            window_models(windows@) == windows_in(all.take(i as int)),
            text_of(reached) == reached_in(all.take(i as int)),
            spend == spend_in(all.take(i as int)),
            forall|j: int|
                0 <= j < i ==> judges_whole((#[trigger] all[j]).0, all[j].1, "primary"@)
                    && judges_whole(all[j].0, all[j].1, "secondary"@),
        decreases limits@.len() - i,
    {
        assert(all.take(i + 1).drop_last() =~= all.take(i as int));
        assert(all.take(i + 1).last() == all[i as int]);
        let limit_id = &limits[i].0;
        let limit = &limits[i].1;
        if reached.is_none() {
            reached = limit.text_field("rateLimitReachedType");
        }
        if spend.is_none() {
            spend = limit.flag_field("spendControlReached");
        }
        let ghost before = window_models(windows@);
        if let Some(window) = parse_window(limit_id, limit, "primary") {
            windows.push(window);
            assert(window_models(windows@) =~= before.push(window@));
        }
        let ghost between = window_models(windows@);
        if let Some(window) = parse_window(limit_id, limit, "secondary") {
            windows.push(window);
            assert(window_models(windows@) =~= between.push(window@));
        }
        i = i + 1;
    }
    assert(all.take(i as int) =~= all);
    QuotaSnapshot {
        queried_at: now,
        windows,
        rate_limit_reached_type: reached,
        spend_control_reached: spend,
        reset_credits_available: credits,
        token_usage: None,
    }
}

/// What a list of limits says.
pub open spec fn limit_models(limits: Seq<(Option<String>, Json)>) -> Seq<
    (Option<Seq<char>>, JsonModel),
> {
    Seq::new(limits.len(), |i: int| (text_of(limits[i].0), limits[i].1@))
}

fn list_limits(fields: &Vec<(String, Json)>) -> (r: Vec<(Option<String>, Json)>)
    ensures
        limit_models(r@) == Seq::new(
            in_name_order(fields_model(fields@)).len(),
            |i: int|
                (
                    Some(in_name_order(fields_model(fields@))[i].0),
                    in_name_order(fields_model(fields@))[i].1,
                ),
        ),
{
    let ordered = order_fields(fields);
    let ghost names = in_name_order(fields_model(fields@));
    let ghost all = ordered@;
    let mut limits: Vec<(Option<String>, Json)> = Vec::new();
    for entry in it: ordered
        invariant
            it.seq() == all,
            fields_model(all) == names,
            limits@.len() == it.index(),
            forall|i: int|
                0 <= i < limits@.len() ==> text_of((#[trigger] limits@[i]).0) == Some(all[i].0@)
                    && limits@[i].1@ == all[i].1@,
    {
        limits.push((Some(entry.0), entry.1));
    }
    assert forall|i: int| 0 <= i < names.len() implies limit_models(limits@)[i] == (
        Some(names[i].0),
        names[i].1,
    ) by {
        assert(text_of(limits@[i].0) == Some(all[i].0@));
        assert(fields_model(all)[i] == (all[i].0@, all[i].1@));
    }
    assert(limit_models(limits@) =~= Seq::new(names.len(), |i: int| (Some(names[i].0), names[i].1)));
    limits
}

/// Reads the limits of an account out of a response.
pub fn parse_rate_limits(result: &Json, now: Timestamp) -> (r: Result<QuotaSnapshot, AppError>)
    ensures
        match r {
            Ok(snapshot) => snapshot_in(result@, now) == Some(snapshot@) && (reported_limits(
                result@,
            ) matches Some(limits) && all_judge_whole(limits)),
            Err(e) => snapshot_in(result@, now) is None && e@ == ErrorModel::ProtocolIncompatible(
                "响应缺少 rateLimits 和 rateLimitsByLimitId"@,
            ),
        },
{
    let credits: Option<i64> = match result.get("rateLimitResetCredits") {
        Some(credits) => credits.signed_field("availableCount"),
        None => None,
    };
    if let Some(by_id) = result.get("rateLimitsByLimitId") {
        if let Json::Object(fields) = by_id {
            let limits = list_limits(fields);
            assert(by_id@ == JsonModel::Object(fields_model(fields@))) by {
                assert(by_id@->Object_0 =~= fields_model(fields@));
            }
            if limits.len() > 0 {
                assert(reported_limits(result@) == Some(limit_models(limits@)));
                return Ok(parse_limits(&limits, now, credits));
            }
            assert(limit_models(limits@).len() == 0);
        }
    }
    match result.get("rateLimits") {
        Some(limit) => {
            let mut limits: Vec<(Option<String>, Json)> = Vec::new();
            limits.push((limit.text_field("limitId"), limit.copy()));
            assert(limit_models(limits@) =~= seq![(limit@.text_field("limitId"@), limit@)]);
            Ok(parse_limits(&limits, now, credits))
        },
        None => Err(
            AppError::ProtocolIncompatible(
                "响应缺少 rateLimits 和 rateLimitsByLimitId".to_owned(),
            ),
        ),
    }
}

/// The token activity that a response reports.
pub open spec fn usage_in(result: JsonModel) -> Option<TokenUsageSummary> {
    match result.field("summary"@) {
        Some(summary) => Some(
            TokenUsageSummary {
                lifetime_tokens: summary.signed_field("lifetimeTokens"@),
                current_streak_days: summary.signed_field("currentStreakDays"@),
                longest_streak_days: summary.signed_field("longestStreakDays"@),
                peak_daily_tokens: summary.signed_field("peakDailyTokens"@),
                longest_running_turn_seconds: summary.signed_field("longestRunningTurnSec"@),
            },
        ),
        None => None,
    }
}

/// Reads the token activity of an account out of a response.
pub fn parse_token_usage(result: &Json) -> (r: Option<TokenUsageSummary>)
    ensures
        r == usage_in(result@),
{
    match result.get("summary") {
        Some(summary) => Some(
            TokenUsageSummary {
                lifetime_tokens: summary.signed_field("lifetimeTokens"),
                current_streak_days: summary.signed_field("currentStreakDays"),
                longest_streak_days: summary.signed_field("longestStreakDays"),
                peak_daily_tokens: summary.signed_field("peakDailyTokens"),
                longest_running_turn_seconds: summary.signed_field("longestRunningTurnSec"),
            },
        ),
        None => None,
    }
}

/// Where the map by identifier has a limit, the older field is not looked at.
pub proof fn lemma_map_by_identifier_is_preferred(a: JsonModel, b: JsonModel)
    requires
        a.field("rateLimitsByLimitId"@) == b.field("rateLimitsByLimitId"@),
        a.field("rateLimitsByLimitId"@) matches Some(JsonModel::Object(fields)) && fields.len() > 0,
    ensures
        reported_limits(a) == reported_limits(b),
        reported_limits(a) is Some,
{
    let fields = a.field("rateLimitsByLimitId"@)->0->Object_0;
    crate::json::lemma_in_name_order(fields);
    assert(crate::json::has_name(fields, fields[0].0));
    assert(crate::json::has_name(in_name_order(fields), fields[0].0));
}

/// Every window lies from 0 to 100, is exhausted exactly at 100, and lasts some
/// time where it says how long.
pub proof fn lemma_windows_are_sound(limits: Seq<(Option<Seq<char>>, JsonModel)>)
    ensures
        windows_in(limits).len() <= 2 * limits.len(),
        forall|i: int|
            0 <= i < windows_in(limits).len() ==> is_sound_window(#[trigger] windows_in(limits)[i]),
    decreases limits.len(),
{
    if limits.len() > 0 {
        lemma_windows_are_sound(limits.drop_last());
        let (id, limit) = limits.last();
        let first = window_in(id, limit, "primary"@);
        let second = window_in(id, limit, "secondary"@);
        let before = windows_in(limits.drop_last());
        let between = push_some(before, first);
        assert forall|i: int| 0 <= i < windows_in(limits).len() implies is_sound_window(
            #[trigger] windows_in(limits)[i],
        ) by {
            if i < before.len() {
                assert(windows_in(limits)[i] == before[i]);
            } else if i < between.len() {
                assert(windows_in(limits)[i] == first->0);
            } else {
                assert(windows_in(limits)[i] == second->0);
            }
        }
    }
}

/// Whether the numbers of a window fit together.
pub open spec fn is_sound_window(window: WindowModel) -> bool {
    &&& window.used_percent_bits <= HUNDRED_BITS || window.used_percent_bits == MINUS_ZERO_BITS
    &&& window.exhausted <==> window.used_percent_bits == HUNDRED_BITS
    &&& window.window_duration_minutes matches Some(minutes) ==> minutes > 0
}

/// A number of unknown unit gives a time in the unit that its size tells: seconds
/// up to 100 thousand million, milliseconds up to a thousand times that, and
/// microseconds beyond; parts of a second are left out. It gives none exactly
/// where the calendar ends.
pub proof fn lemma_moment(raw: i64)
    ensures
        moment(None) is None,
        -100_000_000_000 <= raw <= 100_000_000_000 ==> moment(Some(raw)) == Some(
            Timestamp { seconds: raw, nanos: 0 },
        ),
        100_000_000_000 < raw <= 100_000_000_000_000 ==> (moment(Some(raw)) matches Some(time)
            && time.nanos == 0 && time.seconds * 1_000 <= raw < (time.seconds + 1) * 1_000),
        -100_000_000_000_000 <= raw < -100_000_000_000 ==> (moment(Some(raw)) matches Some(time)
            && time.nanos == 0 && (time.seconds - 1) * 1_000 < raw <= time.seconds * 1_000),
        100_000_000_000_000 < raw ==> (moment(Some(raw)) is Some <==> raw < (
        LAST_SECOND + 1) * 1_000_000),
        100_000_000_000_000 < raw ==> (moment(Some(raw)) matches Some(time) ==> time.nanos == 0
            && time.seconds * 1_000_000 <= raw < (time.seconds + 1) * 1_000_000),
        raw < -100_000_000_000_000 ==> (moment(Some(raw)) is Some <==> (FIRST_SECOND - 1)
            * 1_000_000 < raw),
        raw < -100_000_000_000_000 ==> (moment(Some(raw)) matches Some(time) ==> time.nanos == 0
            && (time.seconds - 1) * 1_000_000 < raw <= time.seconds * 1_000_000),
{
    lemma_toward_zero(raw as int, 1_000);
    lemma_toward_zero(raw as int, 1_000_000);
}

/// A window says what its own object says: it is there exactly if that has a
/// number of what is used, its reset and its length are those of that object, and
/// its name is that of the limit. A length that is no time is none.
pub proof fn lemma_window_is_that_of_its_object(
    limit_id: Option<Seq<char>>,
    limit: JsonModel,
    kind: Seq<char>,
)
    ensures
        limit.field(kind) is None ==> window_in(limit_id, limit, kind) is None,
        limit.field(kind) matches Some(object) ==> {
            let used = object.field("usedPercent"@);
            let window = window_in(limit_id, limit, kind);
            &&& window is Some <==> (used matches Some(JsonModel::Number(_)))
            &&& window matches Some(w) ==> {
                &&& w.limit_id == limit_id && w.kind == kind
                &&& w.official_name == limit.text_field("limitName"@)
                &&& w.resets_at == moment(object.signed_field("resetsAt"@))
                &&& forall|minutes: i64|
                    w.window_duration_minutes == Some(minutes) <==> minutes > 0
                        && #[trigger] is_length(object, minutes)
                &&& w.window_duration_minutes is None <==> (object.signed_field(
                    "windowDurationMins"@,
                ) matches Some(minutes) ==> minutes <= 0)
                &&& used matches Some(JsonModel::Number(NumberModel::Float(bits))) ==> (
                w.exhausted <==> 0x4059_0000_0000_0000 <= bits < 0x8000_0000_0000_0000) && (bits
                    <= 0x4059_0000_0000_0000 || bits == 0x8000_0000_0000_0000
                    ==> w.used_percent_bits == bits) && (0x4059_0000_0000_0000 <= bits
                    < 0x8000_0000_0000_0000 ==> w.used_percent_bits == 0x4059_0000_0000_0000) && (
                0x8000_0000_0000_0000 < bits ==> w.used_percent_bits == 0)
            }
        },
{
    if let Some(object) = limit.field(kind) {
        let stated = object.signed_field("windowDurationMins"@);
        if let Some(w) = window_in(limit_id, limit, kind) {
            assert forall|minutes: i64|
                w.window_duration_minutes == Some(minutes) <==> minutes > 0
                    && #[trigger] is_length(object, minutes) by {}
        }
    }
}

/// Whether the object of a window states this length in minutes.
pub open spec fn is_length(object: JsonModel, minutes: i64) -> bool {
    object.signed_field("windowDurationMins"@) == Some(minutes)
}

/// Two limits that agree on the object of a kind and on their name have the same
/// window of that kind, whatever else they say.
pub proof fn lemma_windows_do_not_mix(
    limit_id: Option<Seq<char>>,
    a: JsonModel,
    b: JsonModel,
    kind: Seq<char>,
)
    requires
        a.field(kind) == b.field(kind),
        a.field("limitName"@) == b.field("limitName"@),
    ensures
        window_in(limit_id, a, kind) == window_in(limit_id, b, kind),
{
}

/// The windows of limits are listed limit by limit, and none is left out: of each
/// limit the primary one where it has one, and after it the secondary one.
pub proof fn lemma_all_windows_are_listed(
    front: Seq<(Option<Seq<char>>, JsonModel)>,
    id: Option<Seq<char>>,
    limit: JsonModel,
    rear: Seq<(Option<Seq<char>>, JsonModel)>,
)
    ensures
        windows_in(front.push((id, limit)) + rear) == windows_in(front) + push_some(
            push_some(Seq::empty(), window_in(id, limit, "primary"@)),
            window_in(id, limit, "secondary"@),
        ) + windows_in(rear),
    decreases rear.len(),
{
    let all = front.push((id, limit)) + rear;
    if rear.len() == 0 {
        assert(all =~= front.push((id, limit)));
        assert(all.drop_last() =~= front);
        assert(windows_in(all) =~= windows_in(front) + push_some(
            push_some(Seq::empty(), window_in(id, limit, "primary"@)),
            window_in(id, limit, "secondary"@),
        ) + windows_in(rear));
    } else {
        lemma_all_windows_are_listed(front, id, limit, rear.drop_last());
        assert(all.drop_last() =~= front.push((id, limit)) + rear.drop_last());
        assert(all.last() == rear.last());
        assert(windows_in(all) =~= windows_in(front) + push_some(
            push_some(Seq::empty(), window_in(id, limit, "primary"@)),
            window_in(id, limit, "secondary"@),
        ) + windows_in(rear));
    }
}

/// The limit that was reached is the first one that a limit names, and the
/// statement on spending is the first one that a limit makes.
pub proof fn lemma_first_statement_counts(
    front: Seq<(Option<Seq<char>>, JsonModel)>,
    id: Option<Seq<char>>,
    limit: JsonModel,
    rear: Seq<(Option<Seq<char>>, JsonModel)>,
)
    ensures
        (forall|i: int|
            0 <= i < front.len() ==> (#[trigger] front[i]).1.text_field("rateLimitReachedType"@)
                is None) ==> (match limit.text_field("rateLimitReachedType"@) {
            Some(words) => reached_in(front.push((id, limit)) + rear) == Some(words),
            None => reached_in(front.push((id, limit)) + rear) == reached_in(rear),
        }),
        (forall|i: int|
            0 <= i < front.len() ==> (#[trigger] front[i]).1.flag_field("spendControlReached"@)
                is None) ==> (match limit.flag_field("spendControlReached"@) {
            Some(flag) => spend_in(front.push((id, limit)) + rear) == Some(flag),
            None => spend_in(front.push((id, limit)) + rear) == spend_in(rear),
        }),
        reached_in(Seq::empty()) is None,
        spend_in(Seq::empty()) is None,
    decreases rear.len(),
{
    let all = front.push((id, limit)) + rear;
    if rear.len() == 0 {
        assert(all =~= front.push((id, limit)));
        assert(all.drop_last() =~= front);
        lemma_silent_limits(front);
        assert(rear =~= Seq::empty());
    } else {
        lemma_first_statement_counts(front, id, limit, rear.drop_last());
        assert(all.drop_last() =~= front.push((id, limit)) + rear.drop_last());
        assert(all.last() == rear.last());
    }
}

proof fn lemma_silent_limits(limits: Seq<(Option<Seq<char>>, JsonModel)>)
    ensures
        (forall|i: int|
            0 <= i < limits.len() ==> (#[trigger] limits[i]).1.text_field("rateLimitReachedType"@)
                is None) ==> reached_in(limits) is None,
        (forall|i: int|
            0 <= i < limits.len() ==> (#[trigger] limits[i]).1.flag_field("spendControlReached"@)
                is None) ==> spend_in(limits) is None,
    decreases limits.len(),
{
    if limits.len() > 0 {
        let front = limits.drop_last();
        let last = limits[limits.len() - 1];
        lemma_silent_limits(front);
        assert forall|i: int| 0 <= i < front.len() implies #[trigger] front[i] == limits[i] by {}
    }
}

/// What a response says of limits: every limit of the map by its identifier, in
/// the order of the identifiers and the last of each, or else the one limit of the
/// older field under the identifier that it states itself. The time and the resets
/// that are left are those of the query and of the response.
pub proof fn lemma_snapshot_covers_the_response(result: JsonModel, now: Timestamp, id: Seq<char>)
    ensures
        snapshot_in(result, now) is None <==> !(result.field(
            "rateLimitsByLimitId"@,
        ) matches Some(JsonModel::Object(fields)) && fields.len() > 0) && result.field(
            "rateLimits"@,
        ) is None,
        snapshot_in(result, now) matches Some(snapshot) ==> {
            &&& snapshot.queried_at == now
            &&& snapshot.token_usage is None
            &&& snapshot.reset_credits_available == (match result.field("rateLimitResetCredits"@) {
                Some(credits) => credits.signed_field("availableCount"@),
                None => None,
            })
        },
        result.field("rateLimitsByLimitId"@) matches Some(JsonModel::Object(fields)) ==> fields.len()
            > 0 ==> {
            &&& reported_limits(result) matches Some(limits)
            &&& snapshot_in(result, now)->0.windows == windows_in(limits)
            &&& (exists|i: int| 0 <= i < limits.len() && (#[trigger] limits[i]).0 == Some(id))
                <==> has_name(fields, id)
            &&& forall|i: int, j: int|
                #![trigger limits[i], limits[j]]
                0 <= i < j < limits.len() ==> limits[i].0 is Some && limits[j].0 is Some
                    && sorts_before(limits[i].0->0, limits[j].0->0)
        },
        !(result.field("rateLimitsByLimitId"@) matches Some(JsonModel::Object(fields))
            && fields.len() > 0) ==> (result.field("rateLimits"@) matches Some(limit) ==> (
        snapshot_in(result, now) matches Some(snapshot) && snapshot.windows == push_some(
            push_some(Seq::empty(), window_in(limit.text_field("limitId"@), limit, "primary"@)),
            window_in(limit.text_field("limitId"@), limit, "secondary"@),
        ))),
{
    if let Some(JsonModel::Object(fields)) = result.field("rateLimitsByLimitId"@) {
        let done = in_name_order(fields);
        lemma_in_name_order(fields);
        if fields.len() > 0 {
            assert(has_name(fields, fields[0].0));
            assert(has_name(done, fields[0].0));
            let limits = reported_limits(result)->0;
            if has_name(fields, id) {
                assert(has_name(done, id));
                let i = choose|i: int| 0 <= i < done.len() && (#[trigger] done[i]).0 == id;
                assert(limits[i].0 == Some(id));
            }
            if exists|i: int| 0 <= i < limits.len() && (#[trigger] limits[i]).0 == Some(id) {
                let i = choose|i: int| 0 <= i < limits.len() && (#[trigger] limits[i]).0 == Some(id);
                assert(done[i].0 == id);
                assert(has_name(done, id));
            }
        } else {
            assert(fields =~= Seq::empty());
        }
    }
    if let Some(limit) = result.field("rateLimits"@) {
        let only = (limit.text_field("limitId"@), limit);
        let none = Seq::<(Option<Seq<char>>, JsonModel)>::empty();
        lemma_all_windows_are_listed(none, only.0, limit, none);
        assert(none.push(only) + none =~= seq![only]);
        assert(windows_in(seq![only]) =~= push_some(
            push_some(Seq::empty(), window_in(only.0, limit, "primary"@)),
            window_in(only.0, limit, "secondary"@),
        ));
    }
}

/// A label says the length of its window: in days where that comes out even, else
/// in hours, else in minutes; an hour, five hours, a day and a week have names.
pub proof fn lemma_label_says_the_length(n: int)
    ensures
        n != 1 && n != 7 ==> duration_words(n * 1_440) == decimal(n) + " 天窗口"@,
        n % 24 != 0 && n != 1 && n != 5 ==> duration_words(n * 60) == decimal(n) + " 小时窗口"@,
        n % 60 != 0 ==> duration_words(n) == decimal(n) + " 分钟窗口"@,
        duration_words(60) == "1 小时"@,
        duration_words(5int * 60) == "5 小时"@,
        duration_words(24int * 60) == "每日"@,
        duration_words(7int * 24 * 60) == "每周"@,
{
}

/// The name of a window begins with the official name where that is not blank, and
/// ends with the length where that is known; without both it tells the bucket and
/// the limit.
pub proof fn lemma_window_name(
    official_name: Option<Seq<char>>,
    limit_id: Option<Seq<char>>,
    duration: Option<i64>,
    kind: Seq<char>,
)
    ensures
        ({
            let words = window_words(official_name, limit_id, duration, kind);
            let named = official_name is Some && trimmed(official_name->0).len() > 0;
            &&& named && duration is Some ==> words == official_name->0 + " · "@ + duration_words(
                duration->0 as int,
            )
            &&& named && duration is None ==> words == official_name->0
            &&& !named && duration is Some ==> words == duration_words(duration->0 as int)
            &&& !named && duration is None ==> begins(
                words,
                if kind == "primary"@ {
                    "主要额度窗口"@
                } else {
                    "次要额度窗口"@
                },
            ) && (limit_id matches Some(id) ==> ends(words, id))
        }),
{
    let words = window_words(official_name, limit_id, duration, kind);
    let named = official_name is Some && trimmed(official_name->0).len() > 0;
    if !named && duration is None {
        let bucket = if kind == "primary"@ {
            "主要额度窗口"@
        } else {
            "次要额度窗口"@
        };
        assert(words.subrange(0, bucket.len() as int) =~= bucket);
        if let Some(id) = limit_id {
            assert(words.subrange(words.len() - id.len(), words.len() as int) =~= id);
        }
    }
}

/// Token activity is reported exactly if the response has a summary, each number
/// under its own name and none in place of another.
pub proof fn lemma_usage_is_read(result: JsonModel)
    ensures
        usage_in(result) is Some <==> result.field("summary"@) is Some,
        usage_in(result) matches Some(usage) ==> {
            let summary = result.field("summary"@)->0;
            &&& usage.lifetime_tokens == summary.signed_field("lifetimeTokens"@)
            &&& usage.current_streak_days == summary.signed_field("currentStreakDays"@)
            &&& usage.longest_streak_days == summary.signed_field("longestStreakDays"@)
            &&& usage.peak_daily_tokens == summary.signed_field("peakDailyTokens"@)
            &&& usage.longest_running_turn_seconds == summary.signed_field(
                "longestRunningTurnSec"@,
            )
        },
{
}

} // verus!
