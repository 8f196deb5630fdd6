//! Request shapes, strategy attribution and timeline ticks of the NAV
//! reconstruction.

pub mod selection;
pub mod liquidity;
pub mod fills;
pub mod prepare;
pub mod window;
pub mod timeline;
pub mod inference;

use vstd::prelude::*;

use crate::config::AppConfig;
use crate::model::UniformOrderEvent;
use crate::text::{chars_of, chars_start_with, is_alnum, lower_char, owned, slice_range, str_eq, string_of, to_ascii_lower, char_is_alnum};

verus! {

/// Spacing of the NAV timeline ticks: fifteen minutes.
pub const NAV_TICK_INTERVAL_US: i64 = 900_000_000;

/// `from_key` prefix of orders that batch_exec sent for a strategy.
pub const BATCH_EXEC_FROM_KEY_PREFIX: &'static str = "batch_exec:";

/// Strategy of positions held before the first fill.
pub const INITIAL_POSITION_STRATEGY: &'static str = "__initial_position__";

/// Strategy of positions no strategy claims.
pub const UNALLOCATED_STRATEGY: &'static str = "__unallocated__";

/// Strategy of fills whose order names no strategy.
pub const UNATTRIBUTED_STRATEGY: &'static str = "__unattributed__";

/// Where a venue's mark price comes from.
#[derive(Debug, Clone, Copy, PartialEq, Eq, Structural)]
pub enum MarkPriceSource {
    LatestFill,
    InitialSnapshot,
    Override,
}

/// Where a venue's initial reference price comes from.
#[derive(Debug, Clone, Copy, PartialEq, Eq, Structural)]
pub enum InitialReferencePriceSource {
    Configured,
    FirstFill,
}

/// A NAV timeline query.
#[derive(Debug, Clone)]
pub struct NavTimelineRequest {
    pub start_ts_us: Option<i64>,
    pub end_ts_us: i64,
    pub selected_source_ids: Vec<String>,
    pub selected_symbols: Vec<String>,
    pub max_points: usize,
}

/// A strategy PnL query.
#[derive(Debug, Clone)]
pub struct StrategyPnlRequest {
    pub source_id: String,
    pub strategy_name: String,
    pub start_ts_us: i64,
    pub end_ts_us: i64,
}

/// Kind of a strategy PnL row.
#[derive(Debug, Clone, Copy, PartialEq, Eq, Structural)]
pub enum StrategyPnlRowKind {
    WindowStart,
    Fill,
    WindowEnd,
}

/// Wire name of a strategy PnL row kind.
pub open spec fn row_kind_label(k: StrategyPnlRowKind) -> Seq<char> {
    match k {
        StrategyPnlRowKind::WindowStart => "window_start"@,
        StrategyPnlRowKind::Fill => "fill"@,
        StrategyPnlRowKind::WindowEnd => "window_end"@,
    }
}

impl StrategyPnlRowKind {
    /// Wire name of the row kind.
    pub fn as_str(self) -> (r: &'static str)
        ensures
            r@ == row_kind_label(self),
    {
        match self {
            StrategyPnlRowKind::WindowStart => "window_start",
            StrategyPnlRowKind::Fill => "fill",
            StrategyPnlRowKind::WindowEnd => "window_end",
        }
    }
}

/// 1 to 256 ASCII letters, digits, `.`, `_` or `-`.
pub open spec fn stable_strategy_name(s: Seq<char>) -> bool {
    1 <= s.len() <= 256 && forall|i: int|
        0 <= i < s.len() ==> is_alnum(#[trigger] s[i]) || s[i] == '.' || s[i] == '_' || s[i] == '-'
}

/// The strategy a fill's `from_key` names: the text after `batch_exec:`
/// when it is a stable name, else `__unattributed__`.
pub open spec fn strategy_of_from_key(from_key: Seq<char>) -> Seq<char> {
    let p = "batch_exec:"@;
    if from_key.len() >= p.len() && from_key.take(p.len() as int) == p && stable_strategy_name(
        from_key.skip(p.len() as int),
    ) {
        from_key.skip(p.len() as int)
    } else {
        "__unattributed__"@
    }
}

/// The strategy a fill's `from_key` names.
pub fn strategy_from_from_key(from_key: &str) -> (r: String)
    ensures
        r@ == strategy_of_from_key(from_key@),
{
    let cs = chars_of(from_key);
    let p = chars_of(BATCH_EXEC_FROM_KEY_PREFIX);
    if !chars_start_with(cs.as_slice(), p.as_slice()) {
        return owned(UNATTRIBUTED_STRATEGY);
    }
    let rest = slice_range(cs.as_slice(), p.len(), cs.len());
    assert(rest@ =~= from_key@.skip(p@.len() as int));
    if rest.len() == 0 || rest.len() > 256 {
        return owned(UNATTRIBUTED_STRATEGY);
    }
    let mut i: usize = 0;
    while i < rest.len()
        invariant
            i <= rest@.len(),
            1 <= rest@.len() <= 256,
            p@ == "batch_exec:"@,
            from_key@.len() >= p@.len() && from_key@.take(p@.len() as int) == p@,
            rest@ == from_key@.skip(p@.len() as int),
            forall|k: int|
                0 <= k < i ==> is_alnum(#[trigger] rest@[k]) || rest@[k] == '.' || rest@[k] == '_'
                    || rest@[k] == '-',
        decreases rest@.len() - i,
    {
        let c = rest[i];
        if !(char_is_alnum(c) || c == '.' || c == '_' || c == '-') {
            assert(!stable_strategy_name(rest@));
            return owned(UNATTRIBUTED_STRATEGY);
        }
        i = i + 1;
    }
    string_of(rest.as_slice())
}

/// The strategy name is `system_position_close` in any ASCII case.
pub open spec fn system_position_close(s: Seq<char>) -> bool {
    s.len() == "system_position_close"@.len() && forall|i: int|
        0 <= i < s.len() ==> lower_char(#[trigger] s[i]) == lower_char("system_position_close"@[i])
}

/// Whether a strategy is the system's position-closing one.
pub fn is_system_position_close(strategy: &str) -> (r: bool)
    ensures
        r == system_position_close(strategy@),
{
    let a = chars_of(strategy);
    let b = chars_of("system_position_close");
    if a.len() != b.len() {
        return false;
    }
    let mut i: usize = 0;
    while i < a.len()
        invariant
            a@ == strategy@,
            b@ == "system_position_close"@,
            a@.len() == b@.len(),
            i <= a@.len(),
            forall|k: int| 0 <= k < i ==> lower_char(#[trigger] a@[k]) == lower_char(b@[k]),
        decreases a@.len() - i,
    {
        if crate::text::char_lower(a[i]) != crate::text::char_lower(b[i]) {
            return false;
        }
        i = i + 1;
    }
    true
}

/// `v` clamped to the `i64` range.
pub open spec fn clamp_i64(v: int) -> int {
    if v < i64::MIN {
        i64::MIN as int
    } else if v > i64::MAX {
        i64::MAX as int
    } else {
        v
    }
}

/// The first tick after `ts_us` on a grid of `interval_us`: the next
/// multiple of the interval, saturating at the `i64` range.
pub open spec fn next_tick(ts_us: int, interval_us: int) -> int {
    clamp_i64(clamp_i64(ts_us / interval_us + 1) * interval_us)
}

/// The first timeline tick strictly after `ts_us`.
pub fn next_timeline_tick(ts_us: i64, interval_us: i64) -> (r: i64)
    requires
        interval_us > 0,
    ensures
        r == next_tick(ts_us as int, interval_us as int),
{
    let q: i64 = if ts_us >= 0 {
        ts_us / interval_us
    } else {
        let a: i64 = -(ts_us + 1);
        let qa: i64 = a / interval_us;
        proof {
            let i = interval_us as int;
            let ra = a as int % i;
            vstd::arithmetic::div_mod::lemma_fundamental_div_mod(a as int, i);
            assert(0 <= ra < i);
            assert(ts_us as int == (-(qa as int) - 1) * i + (i - 1 - ra)) by (nonlinear_arith)
                requires
                    a as int == i * (qa as int) + ra,
                    ts_us as int == -(a as int) - 1,
            ;
            vstd::arithmetic::div_mod::lemma_fundamental_div_mod_converse(
                ts_us as int,
                i,
                -(qa as int) - 1,
                i - 1 - ra,
            );
        }
        -qa - 1
    };
    assert(q as int == ts_us as int / interval_us as int);
    let next: i64 = if q == i64::MAX {
        i64::MAX
    } else {
        q + 1
    };
    let n128 = next as i128;
    let i128v = interval_us as i128;
    assert(-0x8000_0000_0000_0000 <= n128 <= 0x7FFF_FFFF_FFFF_FFFF);
    assert(0 < i128v <= 0x7FFF_FFFF_FFFF_FFFF);
    assert(-0x4000_0000_0000_0000_0000_0000_0000_0000 <= n128 * i128v
        <= 0x4000_0000_0000_0000_0000_0000_0000_0000) by (nonlinear_arith)
        requires
            -0x8000_0000_0000_0000 <= n128 <= 0x7FFF_FFFF_FFFF_FFFF,
            0 < i128v <= 0x7FFF_FFFF_FFFF_FFFF,
    ;
    let product: i128 = n128 * i128v;
    if product > 0x7FFF_FFFF_FFFF_FFFF {
        i64::MAX
    } else if product < -0x8000_0000_0000_0000 {
        i64::MIN
    } else {
        product as i64
    }
}

/// The time a fill takes in FIFO order: its update time when set, else its
/// event time.
pub fn fifo_ts_us(event: &UniformOrderEvent) -> (r: i64)
    ensures
        r == (if event.update_ts_us > 0 {
            event.update_ts_us
        } else {
            event.event_ts_us
        }),
{
    if event.update_ts_us > 0 {
        event.update_ts_us
    } else {
        event.event_ts_us
    }
}

/// Whether a fill added or took liquidity.
#[derive(Debug, Clone, Copy, PartialEq, Eq, Structural)]
pub enum LiquidityRole {
    Maker,
    Taker,
    Unknown,
}

/// The role an order type implies when the order's fills say nothing:
/// limit orders make, market and stop orders take.
pub open spec fn order_type_role(code: i16) -> LiquidityRole {
    if code == 1 {
        LiquidityRole::Maker
    } else if 3 <= code <= 9 {
        LiquidityRole::Taker
    } else {
        LiquidityRole::Unknown
    }
}

/// Without a recorded role, only a limit order (type 1) makes liquidity;
/// market and stop orders (types 3 to 9) take it, and other types are
/// unknown.
pub proof fn lemma_unrecorded_roles(code: i16)
    ensures
        order_type_role(code) == LiquidityRole::Maker <==> code == 1,
        3 <= code <= 9 ==> order_type_role(code) == LiquidityRole::Taker,
        code != 1 && !(3 <= code <= 9) ==> order_type_role(code) == LiquidityRole::Unknown,
{
}

/// The liquidity role of a fill: the one recorded for its order, else the
/// one its order type implies.
pub fn liquidity_role(recorded: Option<LiquidityRole>, order_type_code: i16) -> (r: LiquidityRole)
    ensures
        r == match recorded {
            Some(x) => x,
            None => order_type_role(order_type_code),
        },
        recorded is None ==> (r == LiquidityRole::Maker <==> order_type_code == 1),
        recorded is None && 3 <= order_type_code <= 9 ==> r == LiquidityRole::Taker,
{
    match recorded {
        Some(x) => x,
        None => {
            if order_type_code == 1 {
                LiquidityRole::Maker
            } else if 3 <= order_type_code && order_type_code <= 9 {
                LiquidityRole::Taker
            } else {
                LiquidityRole::Unknown
            }
        },
    }
}

} // verus!
