//! Order-execution parameters of a strategy, their per-symbol overrides,
//! target positions and strategy names.

use vstd::prelude::*;

use crate::float_bits::{f64_eq, f64_gt_zero, f64_is_finite, f64_lt_zero, float_eq, gt_zero, is_finite, lt_zero};
use crate::text::{chars_of, char_is_alnum, is_alnum, is_digit, is_upper, owned, str_eq};

verus! {

/// Bits of `100.0`.
pub const SINGLE_ORDER_USDT_DEFAULT_BITS: u64 = 0x4059_0000_0000_0000;

/// Bits of `10.0`.
pub const TARGET_TOLERANCE_USDT_DEFAULT_BITS: u64 = 0x4024_0000_0000_0000;

/// The target signals a strategy may publish.
pub const ALLOWED_TARGET_SIGNALS: [i32; 5] = [-2, -1, 0, 1, 2];

/// How a strategy's orders are sliced and quoted. The USDT amounts are
/// binary64 bit patterns.
#[derive(Debug, Clone)]
pub struct OrderParameters {
    pub single_order_usdt_bits: u64,
    pub orders_per_batch: u32,
    pub max_batch: u32,
    pub maker_price_anchor: String,
    pub tick_spacing: u32,
    pub batch_interval_ms: u32,
    pub maker_timeout_ms: u32,
    pub max_maker_requotes: u32,
    pub target_tolerance_usdt_bits: u64,
}

/// Batches per order run when the configuration leaves it out.
pub fn default_max_batch() -> (r: u32)
    ensures
        r == 20,
{
    20
}

impl Default for OrderParameters {
    fn default() -> (r: Self)
        ensures
            r.single_order_usdt_bits == SINGLE_ORDER_USDT_DEFAULT_BITS,
            r.orders_per_batch == 3,
            r.max_batch == 20,
            r.maker_price_anchor@ == "own_best"@,
            r.tick_spacing == 1,
            r.batch_interval_ms == 500,
            r.maker_timeout_ms == 1_000,
            r.max_maker_requotes == 2,
            r.target_tolerance_usdt_bits == TARGET_TOLERANCE_USDT_DEFAULT_BITS,
    {
        OrderParameters {
            single_order_usdt_bits: SINGLE_ORDER_USDT_DEFAULT_BITS,
            orders_per_batch: 3,
            max_batch: default_max_batch(),
            maker_price_anchor: owned("own_best"),
            tick_spacing: 1,
            batch_interval_ms: 500,
            maker_timeout_ms: 1_000,
            max_maker_requotes: 2,
            target_tolerance_usdt_bits: TARGET_TOLERANCE_USDT_DEFAULT_BITS,
        }
    }
}

/// Which order parameter rule is broken.
#[derive(Debug, Clone, Copy, PartialEq, Eq, Structural)]
pub enum ParamError {
    SingleOrderUsdt,
    OrdersPerBatch,
    MaxBatch,
    MakerPriceAnchor,
    MakerTimeout,
    TargetTolerance,
}

/// Operator-facing text of a broken order parameter rule.
pub open spec fn param_error_text(e: ParamError) -> Seq<char> {
    match e {
        ParamError::SingleOrderUsdt => "single_order_usdt must be finite and greater than zero"@,
        ParamError::OrdersPerBatch => "orders_per_batch must be greater than zero"@,
        ParamError::MaxBatch => "max_batch must be greater than zero"@,
        ParamError::MakerPriceAnchor => "maker_price_anchor is invalid"@,
        ParamError::MakerTimeout => "maker_timeout_ms must be greater than zero"@,
        ParamError::TargetTolerance => "target_tolerance_usdt must be finite and nonnegative"@,
    }
}

impl ParamError {
    /// Operator-facing text of the error.
    pub fn message(&self) -> (r: &'static str)
        ensures
            r@ == param_error_text(*self),
    {
        match self {
            ParamError::SingleOrderUsdt => "single_order_usdt must be finite and greater than zero",
            ParamError::OrdersPerBatch => "orders_per_batch must be greater than zero",
            ParamError::MaxBatch => "max_batch must be greater than zero",
            ParamError::MakerPriceAnchor => "maker_price_anchor is invalid",
            ParamError::MakerTimeout => "maker_timeout_ms must be greater than zero",
            ParamError::TargetTolerance => "target_tolerance_usdt must be finite and nonnegative",
        }
    }
}

/// The maker price anchors the Exec understands.
pub open spec fn valid_anchor(a: Seq<char>) -> bool {
    a == "own_best"@ || a == "opposite_best_plus_one_tick"@
}

/// The first order parameter rule `p` breaks.
pub open spec fn param_error(p: OrderParameters) -> Option<ParamError> {
    if !is_finite(p.single_order_usdt_bits) || !gt_zero(p.single_order_usdt_bits) {
        Some(ParamError::SingleOrderUsdt)
    } else if p.orders_per_batch == 0 {
        Some(ParamError::OrdersPerBatch)
    } else if p.max_batch == 0 {
        Some(ParamError::MaxBatch)
    } else if !valid_anchor(p.maker_price_anchor@) {
        Some(ParamError::MakerPriceAnchor)
    } else if p.maker_timeout_ms == 0 {
        Some(ParamError::MakerTimeout)
    } else if !is_finite(p.target_tolerance_usdt_bits) || lt_zero(p.target_tolerance_usdt_bits) {
        Some(ParamError::TargetTolerance)
    } else {
        None
    }
}

impl OrderParameters {
    /// Checks the parameters and reports the first rule broken.
    pub fn validate(&self) -> (r: Result<(), ParamError>)
        ensures
            r is Ok <==> param_error(*self) is None,
            r matches Err(e) ==> param_error(*self) == Some(e),
    {
        if !f64_is_finite(self.single_order_usdt_bits) || !f64_gt_zero(self.single_order_usdt_bits) {
            return Err(ParamError::SingleOrderUsdt);
        }
        if self.orders_per_batch == 0 {
            return Err(ParamError::OrdersPerBatch);
        }
        if self.max_batch == 0 {
            return Err(ParamError::MaxBatch);
        }
        let anchor = self.maker_price_anchor.as_str();
        if !(str_eq(anchor, "own_best") || str_eq(anchor, "opposite_best_plus_one_tick")) {
            return Err(ParamError::MakerPriceAnchor);
        }
        if self.maker_timeout_ms == 0 {
            return Err(ParamError::MakerTimeout);
        }
        if !f64_is_finite(self.target_tolerance_usdt_bits) || f64_lt_zero(
            self.target_tolerance_usdt_bits,
        ) {
            return Err(ParamError::TargetTolerance);
        }
        Ok(())
    }
}

/// Per-symbol replacements of some order parameters.
#[derive(Debug, Clone, Default)]
pub struct OrderParameterOverrides {
    pub single_order_usdt_bits: Option<u64>,
    pub orders_per_batch: Option<u32>,
    pub max_batch: Option<u32>,
    pub maker_price_anchor: Option<String>,
    pub tick_spacing: Option<u32>,
    pub batch_interval_ms: Option<u32>,
    pub maker_timeout_ms: Option<u32>,
    pub max_maker_requotes: Option<u32>,
    pub target_tolerance_usdt_bits: Option<u64>,
}

/// No parameter is overridden.
pub open spec fn overrides_empty(o: OrderParameterOverrides) -> bool {
    &&& o.single_order_usdt_bits is None
    &&& o.orders_per_batch is None
    &&& o.max_batch is None
    &&& o.maker_price_anchor is None
    &&& o.tick_spacing is None
    &&& o.batch_interval_ms is None
    &&& o.maker_timeout_ms is None
    &&& o.max_maker_requotes is None
    &&& o.target_tolerance_usdt_bits is None
}

/// The override's value, or the default.
pub open spec fn or_default<T>(o: Option<T>, d: T) -> T {
    match o {
        Some(v) => v,
        None => d,
    }
}

/// `e` is `d` with the overrides of `o` applied.
pub open spec fn applied(o: OrderParameterOverrides, d: OrderParameters, e: OrderParameters) -> bool {
    &&& e.single_order_usdt_bits == or_default(o.single_order_usdt_bits, d.single_order_usdt_bits)
    &&& e.orders_per_batch == or_default(o.orders_per_batch, d.orders_per_batch)
    &&& e.max_batch == or_default(o.max_batch, d.max_batch)
    &&& e.maker_price_anchor@ == match o.maker_price_anchor {
        Some(a) => a@,
        None => d.maker_price_anchor@,
    }
    &&& e.tick_spacing == or_default(o.tick_spacing, d.tick_spacing)
    &&& e.batch_interval_ms == or_default(o.batch_interval_ms, d.batch_interval_ms)
    &&& e.maker_timeout_ms == or_default(o.maker_timeout_ms, d.maker_timeout_ms)
    &&& e.max_maker_requotes == or_default(o.max_maker_requotes, d.max_maker_requotes)
    &&& e.target_tolerance_usdt_bits == or_default(
        o.target_tolerance_usdt_bits,
        d.target_tolerance_usdt_bits,
    )
}

/// `Some(s)` when `s` differs from `d` (as `!=` compares), else `None`.
pub open spec fn changed<T>(s: T, d: T) -> Option<T> {
    if s != d {
        Some(s)
    } else {
        None
    }
}

/// `Some(s)` when the binary64 value `s` differs from `d` as `f64 != f64`
/// compares, else `None`.
pub open spec fn changed_float(s: u64, d: u64) -> Option<u64> {
    if !float_eq(s, d) {
        Some(s)
    } else {
        None
    }
}

/// `o` holds the parameters of `s` that differ from `d`.
pub open spec fn derived(d: OrderParameters, s: OrderParameters, o: OrderParameterOverrides) -> bool {
    &&& o.single_order_usdt_bits == changed_float(s.single_order_usdt_bits, d.single_order_usdt_bits)
    &&& o.orders_per_batch == changed(s.orders_per_batch, d.orders_per_batch)
    &&& o.max_batch == changed(s.max_batch, d.max_batch)
    &&& (if s.maker_price_anchor@ != d.maker_price_anchor@ {
        o.maker_price_anchor matches Some(a) && a@ == s.maker_price_anchor@
    } else {
        o.maker_price_anchor is None
    })
    &&& o.tick_spacing == changed(s.tick_spacing, d.tick_spacing)
    &&& o.batch_interval_ms == changed(s.batch_interval_ms, d.batch_interval_ms)
    &&& o.maker_timeout_ms == changed(s.maker_timeout_ms, d.maker_timeout_ms)
    &&& o.max_maker_requotes == changed(s.max_maker_requotes, d.max_maker_requotes)
    &&& o.target_tolerance_usdt_bits == changed_float(
        s.target_tolerance_usdt_bits,
        d.target_tolerance_usdt_bits,
    )
}

fn changed_u32(s: u32, d: u32) -> (r: Option<u32>)
    ensures
        r == changed(s, d),
{
    if s != d {
        Some(s)
    } else {
        None
    }
}

fn changed_bits(s: u64, d: u64) -> (r: Option<u64>)
    ensures
        r == changed_float(s, d),
{
    if !f64_eq(s, d) {
        Some(s)
    } else {
        None
    }
}

impl OrderParameterOverrides {
    /// No parameter is overridden.
    pub fn is_empty(&self) -> (r: bool)
        ensures
            r == overrides_empty(*self),
    {
        self.single_order_usdt_bits.is_none() && self.orders_per_batch.is_none()
            && self.max_batch.is_none() && self.maker_price_anchor.is_none()
            && self.tick_spacing.is_none() && self.batch_interval_ms.is_none()
            && self.maker_timeout_ms.is_none() && self.max_maker_requotes.is_none()
            && self.target_tolerance_usdt_bits.is_none()
    }

    /// The defaults with every overridden parameter replaced.
    pub fn apply_to(&self, defaults: &OrderParameters) -> (r: OrderParameters)
        ensures
            applied(*self, *defaults, r),
    {
        OrderParameters {
            single_order_usdt_bits: match self.single_order_usdt_bits {
                Some(v) => v,
                None => defaults.single_order_usdt_bits,
            },
            orders_per_batch: match self.orders_per_batch {
                Some(v) => v,
                None => defaults.orders_per_batch,
            },
            max_batch: match self.max_batch {
                Some(v) => v,
                None => defaults.max_batch,
            },
            maker_price_anchor: match &self.maker_price_anchor {
                Some(a) => owned(a.as_str()),
                None => owned(defaults.maker_price_anchor.as_str()),
            },
            tick_spacing: match self.tick_spacing {
                Some(v) => v,
                None => defaults.tick_spacing,
            },
            batch_interval_ms: match self.batch_interval_ms {
                Some(v) => v,
                None => defaults.batch_interval_ms,
            },
            maker_timeout_ms: match self.maker_timeout_ms {
                Some(v) => v,
                None => defaults.maker_timeout_ms,
            },
            max_maker_requotes: match self.max_maker_requotes {
                Some(v) => v,
                None => defaults.max_maker_requotes,
            },
            target_tolerance_usdt_bits: match self.target_tolerance_usdt_bits {
                Some(v) => v,
                None => defaults.target_tolerance_usdt_bits,
            },
        }
    }

    /// The overrides that turn `defaults` into `selected`: every parameter
    /// that differs.
    pub fn from_templates(defaults: &OrderParameters, selected: &OrderParameters) -> (r: Self)
        ensures
            derived(*defaults, *selected, r),
    {
        let anchor = if !str_eq(
            selected.maker_price_anchor.as_str(),
            defaults.maker_price_anchor.as_str(),
        ) {
            Some(owned(selected.maker_price_anchor.as_str()))
        } else {
            None
        };
        OrderParameterOverrides {
            single_order_usdt_bits: changed_bits(
                selected.single_order_usdt_bits,
                defaults.single_order_usdt_bits,
            ),
            orders_per_batch: changed_u32(selected.orders_per_batch, defaults.orders_per_batch),
            max_batch: changed_u32(selected.max_batch, defaults.max_batch),
            maker_price_anchor: anchor,
            tick_spacing: changed_u32(selected.tick_spacing, defaults.tick_spacing),
            batch_interval_ms: changed_u32(selected.batch_interval_ms, defaults.batch_interval_ms),
            maker_timeout_ms: changed_u32(selected.maker_timeout_ms, defaults.maker_timeout_ms),
            max_maker_requotes: changed_u32(
                selected.max_maker_requotes,
                defaults.max_maker_requotes,
            ),
            target_tolerance_usdt_bits: changed_bits(
                selected.target_tolerance_usdt_bits,
                defaults.target_tolerance_usdt_bits,
            ),
        }
    }

    /// The overrides applied to the default parameters must be valid.
    pub fn validate(&self) -> (r: Result<(), ParamError>)
        ensures
            r is Ok <==> override_error(*self) is None,
            r matches Err(x) ==> override_error(*self) == Some(x),
    {
        let d = OrderParameters::default();
        let e = self.apply_to(&d);
        e.validate()
    }
}

/// The first rule broken by the default parameters with the overrides of
/// `o` applied.
pub open spec fn override_error(o: OrderParameterOverrides) -> Option<ParamError> {
    let single = or_default(o.single_order_usdt_bits, SINGLE_ORDER_USDT_DEFAULT_BITS);
    let tolerance = or_default(o.target_tolerance_usdt_bits, TARGET_TOLERANCE_USDT_DEFAULT_BITS);
    let anchor = match o.maker_price_anchor {
        Some(a) => a@,
        None => "own_best"@,
    };
    if !is_finite(single) || !gt_zero(single) {
        Some(ParamError::SingleOrderUsdt)
    } else if or_default(o.orders_per_batch, 3u32) == 0 {
        Some(ParamError::OrdersPerBatch)
    } else if or_default(o.max_batch, 20u32) == 0 {
        Some(ParamError::MaxBatch)
    } else if !valid_anchor(anchor) {
        Some(ParamError::MakerPriceAnchor)
    } else if or_default(o.maker_timeout_ms, 1_000u32) == 0 {
        Some(ParamError::MakerTimeout)
    } else if !is_finite(tolerance) || lt_zero(tolerance) {
        Some(ParamError::TargetTolerance)
    } else {
        None
    }
}

/// The binary64 values `s` and `d` are not two zeros of opposite sign (the
/// only values that `!=` calls equal while their bits differ).
pub open spec fn not_opposite_zeros(s: u64, d: u64) -> bool {
    !(crate::float_bits::is_zero(s) && crate::float_bits::is_zero(d) && s != d)
}

/// Overrides derived from `defaults` and `selected`, applied back to
/// `defaults`, give `selected` again (for amounts that are not zeros of
/// opposite sign).
pub proof fn lemma_overrides_roundtrip(
    defaults: OrderParameters,
    selected: OrderParameters,
    o: OrderParameterOverrides,
    e: OrderParameters,
)
    requires
        derived(defaults, selected, o),
        applied(o, defaults, e),
        not_opposite_zeros(selected.single_order_usdt_bits, defaults.single_order_usdt_bits),
        not_opposite_zeros(
            selected.target_tolerance_usdt_bits,
            defaults.target_tolerance_usdt_bits,
        ),
    ensures
        e.single_order_usdt_bits == selected.single_order_usdt_bits,
        e.orders_per_batch == selected.orders_per_batch,
        e.max_batch == selected.max_batch,
        e.maker_price_anchor@ == selected.maker_price_anchor@,
        e.tick_spacing == selected.tick_spacing,
        e.batch_interval_ms == selected.batch_interval_ms,
        e.maker_timeout_ms == selected.maker_timeout_ms,
        e.max_maker_requotes == selected.max_maker_requotes,
        e.target_tolerance_usdt_bits == selected.target_tolerance_usdt_bits,
{
}

/// Parameters compared with themselves give no overrides (for amounts that
/// are not NaN).
pub proof fn lemma_identical_templates_give_no_overrides(
    defaults: OrderParameters,
    o: OrderParameterOverrides,
)
    requires
        derived(defaults, defaults, o),
        !crate::float_bits::is_nan(defaults.single_order_usdt_bits),
        !crate::float_bits::is_nan(defaults.target_tolerance_usdt_bits),
    ensures
        overrides_empty(o),
{
}

/// Empty overrides leave the defaults as they are.
pub proof fn lemma_empty_overrides_keep_defaults(
    o: OrderParameterOverrides,
    defaults: OrderParameters,
    e: OrderParameters,
)
    requires
        overrides_empty(o),
        applied(o, defaults, e),
    ensures
        e.single_order_usdt_bits == defaults.single_order_usdt_bits,
        e.orders_per_batch == defaults.orders_per_batch,
        e.max_batch == defaults.max_batch,
        e.maker_price_anchor@ == defaults.maker_price_anchor@,
        e.tick_spacing == defaults.tick_spacing,
        e.batch_interval_ms == defaults.batch_interval_ms,
        e.maker_timeout_ms == defaults.maker_timeout_ms,
        e.max_maker_requotes == defaults.max_maker_requotes,
        e.target_tolerance_usdt_bits == defaults.target_tolerance_usdt_bits,
{
}

/// Which per-symbol override rule is broken.
#[derive(Debug, Clone, Copy, PartialEq, Eq, Structural)]
pub enum OverridesErrorKind {
    /// The symbol is empty or holds other than ASCII uppercase letters and digits.
    InvalidSymbol,
    /// The override replaces no parameter.
    EmptyOverride,
    /// The overridden parameters break a parameter rule.
    Param(ParamError),
}

/// A broken per-symbol override rule, with its symbol.
#[derive(Debug, Clone)]
pub struct OverridesError {
    pub kind: OverridesErrorKind,
    pub symbol: String,
}

/// Operator-facing text of a broken override rule of `symbol`.
pub open spec fn overrides_error_text(kind: OverridesErrorKind, symbol: Seq<char>) -> Seq<char> {
    match kind {
        OverridesErrorKind::InvalidSymbol => "invalid symbol override: "@ + symbol,
        OverridesErrorKind::EmptyOverride => "symbol_overrides."@ + symbol + " must override at least one parameter"@,
        OverridesErrorKind::Param(e) => "symbol_overrides."@ + symbol + "."@ + param_error_text(e),
    }
}

impl OverridesError {
    /// Operator-facing text of the error.
    pub fn message(&self) -> (r: String)
        ensures
            r@ == overrides_error_text(self.kind, self.symbol@),
    {
        let s = self.symbol.as_str();
        match self.kind {
            OverridesErrorKind::InvalidSymbol => crate::text::concat2("invalid symbol override: ", s),
            OverridesErrorKind::EmptyOverride => crate::text::concat3(
                "symbol_overrides.",
                s,
                " must override at least one parameter",
            ),
            OverridesErrorKind::Param(e) => {
                let head = crate::text::concat3("symbol_overrides.", s, ".");
                crate::text::concat2(head.as_str(), e.message())
            },
        }
    }
}

/// ASCII uppercase letters and digits, at least one.
pub open spec fn valid_override_symbol(s: Seq<char>) -> bool {
    s.len() > 0 && forall|i: int| 0 <= i < s.len() ==> is_upper(#[trigger] s[i]) || is_digit(s[i])
}

/// The first rule broken by a symbol's override.
pub open spec fn symbol_override_error(symbol: Seq<char>, o: OrderParameterOverrides) -> Option<
    OverridesErrorKind,
> {
    if !valid_override_symbol(symbol) {
        Some(OverridesErrorKind::InvalidSymbol)
    } else if overrides_empty(o) {
        Some(OverridesErrorKind::EmptyOverride)
    } else if override_error(o) is Some {
        Some(OverridesErrorKind::Param(override_error(o)->0))
    } else {
        None
    }
}

/// The first broken override rule from entry `i` on, with its symbol.
pub open spec fn overrides_error_from(entries: Seq<(String, OrderParameterOverrides)>, i: int) -> Option<
    (OverridesErrorKind, Seq<char>),
>
    decreases entries.len() - i,
{
    if i < 0 || i >= entries.len() {
        None
    } else if symbol_override_error(entries[i].0@, entries[i].1) is Some {
        Some((symbol_override_error(entries[i].0@, entries[i].1)->0, entries[i].0@))
    } else {
        overrides_error_from(entries, i + 1)
    }
}

fn check_override_symbol(symbol: &str) -> (r: bool)
    ensures
        r == valid_override_symbol(symbol@),
{
    let cs = chars_of(symbol);
    if cs.len() == 0 {
        return false;
    }
    let mut i: usize = 0;
    while i < cs.len()
        invariant
            cs@ == symbol@,
            i <= cs@.len(),
            forall|k: int| 0 <= k < i ==> is_upper(#[trigger] cs@[k]) || is_digit(cs@[k]),
        decreases cs@.len() - i,
    {
        let c = cs[i];
        if !(('A' <= c && c <= 'Z') || ('0' <= c && c <= '9')) {
            assert(!(is_upper(cs@[i as int]) || is_digit(cs@[i as int])));
            return false;
        }
        i = i + 1;
    }
    true
}

/// Checks every per-symbol override (in the listing's order, which is the
/// symbols' ascending order) and reports the first rule broken.
pub fn validate_symbol_order_parameter_overrides(
    overrides: &Vec<(String, OrderParameterOverrides)>,
) -> (r: Result<(), OverridesError>)
    ensures
        r is Ok <==> overrides_error_from(overrides@, 0) is None,
        r matches Err(e) ==> overrides_error_from(overrides@, 0) == Some((e.kind, e.symbol@)),
{
    let mut i: usize = 0;
    while i < overrides.len()
        invariant
            i <= overrides@.len(),
            overrides_error_from(overrides@, 0) == overrides_error_from(overrides@, i as int),
        decreases overrides@.len() - i,
    {
        let (symbol, o) = &overrides[i];
        if !check_override_symbol(symbol.as_str()) {
            return Err(
                OverridesError { kind: OverridesErrorKind::InvalidSymbol, symbol: owned(symbol.as_str()) },
            );
        }
        if o.is_empty() {
            return Err(
                OverridesError { kind: OverridesErrorKind::EmptyOverride, symbol: owned(symbol.as_str()) },
            );
        }
        match o.validate() {
            Err(e) => {
                return Err(
                    OverridesError { kind: OverridesErrorKind::Param(e), symbol: owned(symbol.as_str()) },
                );
            },
            Ok(()) => {},
        }
        i = i + 1;
    }
    Ok(())
}

/// Why a target position is refused.
#[derive(Debug, Clone, Copy, PartialEq, Eq, Structural)]
pub enum TargetError {
    /// The quantity is infinite or NaN.
    QtyNotFinite,
    /// The signal is not one of -2, -1, 0, 1, 2.
    InvalidSignal,
}

/// Operator-facing text of a refused target.
pub open spec fn target_error_text(e: TargetError) -> Seq<char> {
    match e {
        TargetError::QtyNotFinite => "qty must be finite"@,
        TargetError::InvalidSignal => "signal must be one of -2, -1, 0, 1, 2"@,
    }
}

impl TargetError {
    /// Operator-facing text of the error.
    pub fn message(&self) -> (r: &'static str)
        ensures
            r@ == target_error_text(*self),
    {
        match self {
            TargetError::QtyNotFinite => "qty must be finite",
            TargetError::InvalidSignal => "signal must be one of -2, -1, 0, 1, 2",
        }
    }
}

/// The signals a strategy may publish.
pub open spec fn allowed_signal(s: i32) -> bool {
    -2 <= s <= 2
}

/// Accepts a signal of -2, -1, 0, 1 or 2.
pub fn validate_target_signal(signal: i32) -> (r: Result<(), TargetError>)
    ensures
        r is Ok <==> allowed_signal(signal),
        r matches Err(e) ==> e == TargetError::InvalidSignal,
{
    let mut i: usize = 0;
    while i < 5
        invariant
            i <= 5,
            ALLOWED_TARGET_SIGNALS@ == seq![-2i32, -1i32, 0i32, 1i32, 2i32],
            forall|k: int| 0 <= k < i ==> ALLOWED_TARGET_SIGNALS@[k] != signal,
        decreases 5 - i,
    {
        if ALLOWED_TARGET_SIGNALS[i] == signal {
            return Ok(());
        }
        i = i + 1;
    }
    assert(ALLOWED_TARGET_SIGNALS@[0] != signal && ALLOWED_TARGET_SIGNALS@[1] != signal
        && ALLOWED_TARGET_SIGNALS@[2] != signal && ALLOWED_TARGET_SIGNALS@[3] != signal
        && ALLOWED_TARGET_SIGNALS@[4] != signal);
    Err(TargetError::InvalidSignal)
}

/// A strategy's target: a signed quantity (binary64 bit pattern) and a
/// signal.
#[derive(Debug, Clone, Copy, PartialEq, Eq, Structural)]
pub struct TargetPosition {
    pub qty_bits: u64,
    pub signal: i32,
}

impl TargetPosition {
    /// A target with a finite quantity and an allowed signal.
    pub fn new(qty_bits: u64, signal: i32) -> (r: Result<Self, TargetError>)
        ensures
            r is Ok <==> is_finite(qty_bits) && allowed_signal(signal),
            r matches Ok(t) ==> t.qty_bits == qty_bits && t.signal == signal,
            r matches Err(e) ==> (!is_finite(qty_bits) ==> e == TargetError::QtyNotFinite),
            r matches Err(e) ==> (is_finite(qty_bits) ==> e == TargetError::InvalidSignal),
    {
        if !f64_is_finite(qty_bits) {
            return Err(TargetError::QtyNotFinite);
        }
        validate_target_signal(signal)?;
        Ok(TargetPosition { qty_bits, signal })
    }
}

/// Why a strategy name is refused.
#[derive(Debug, Clone, Copy, PartialEq, Eq, Structural)]
pub enum StrategyNameError {
    InvalidFormat,
    Reserved,
}

/// Operator-facing text of a refused strategy name.
pub open spec fn strategy_name_error_text(e: StrategyNameError) -> Seq<char> {
    match e {
        StrategyNameError::InvalidFormat => "strategy_name has an invalid format"@,
        StrategyNameError::Reserved => "strategy_name is reserved"@,
    }
}

impl StrategyNameError {
    /// Operator-facing text of the error.
    pub fn message(&self) -> (r: &'static str)
        ensures
            r@ == strategy_name_error_text(*self),
    {
        match self {
            StrategyNameError::InvalidFormat => "strategy_name has an invalid format",
            StrategyNameError::Reserved => "strategy_name is reserved",
        }
    }
}

/// 1 to 256 characters: an ASCII letter or digit, then ASCII letters,
/// digits, `.`, `_` or `-`.
pub open spec fn strategy_name_format(s: Seq<char>) -> bool {
    &&& 1 <= s.len() <= 256
    &&& is_alnum(s[0])
    &&& forall|i: int|
        1 <= i < s.len() ==> is_alnum(#[trigger] s[i]) || s[i] == '.' || s[i] == '_' || s[i]
            == '-'
}

/// Names the Exec Config keeps for itself.
pub open spec fn reserved_strategy_name(s: Seq<char>) -> bool {
    s == "strategy_names"@ || s == "removed_strategy_names"@ || s == "SYSTEM_POSITION_CLOSE"@
}

/// Accepts a well-formed strategy name that is not reserved.
pub fn validate_strategy_name(name: &str) -> (r: Result<(), StrategyNameError>)
    ensures
        r is Ok <==> strategy_name_format(name@) && !reserved_strategy_name(name@),
        r matches Err(e) ==> (!strategy_name_format(name@) ==> e == StrategyNameError::InvalidFormat),
        r matches Err(e) ==> (strategy_name_format(name@) ==> e == StrategyNameError::Reserved),
{
    let cs = chars_of(name);
    if cs.len() == 0 || cs.len() > 256 || !char_is_alnum(cs[0]) {
        return Err(StrategyNameError::InvalidFormat);
    }
    let mut i: usize = 1;
    while i < cs.len()
        invariant
            cs@ == name@,
            1 <= i <= cs@.len(),
            forall|k: int|
                1 <= k < i ==> is_alnum(#[trigger] cs@[k]) || cs@[k] == '.' || cs@[k] == '_'
                    || cs@[k] == '-',
        decreases cs@.len() - i,
    {
        let c = cs[i];
        if !(char_is_alnum(c) || c == '.' || c == '_' || c == '-') {
            return Err(StrategyNameError::InvalidFormat);
        }
        i = i + 1;
    }
    if str_eq(name, "strategy_names") || str_eq(name, "removed_strategy_names") || str_eq(
        name,
        "SYSTEM_POSITION_CLOSE",
    ) {
        return Err(StrategyNameError::Reserved);
    }
    Ok(())
}

} // verus!
