//! Maker/taker roles of orders, read from the exchange trade updates of a
//! source, and the role of a fill.

use vstd::prelude::*;

use crate::codec::{le8, signed64};
use crate::float_bits::{f64_is_zero, f64_lt_zero, is_zero, lt_zero};
use crate::ingest::RawRecord;
use crate::model::{
    decode_trade_update, key_ok, string_at, trade_update_fields, tu_end, tu_flag_at, tu_symbol_end, tu_truncated,
    ModelError, UniformOrderEvent,
};
use crate::nav::{liquidity_role, order_type_role, LiquidityRole};
use crate::text::{owned, str_eq};

verus! {

/// An order as trade updates and fills name it: symbol, venue code and
/// client order id.
pub type LiquidityKey = (String, i16, i64);

/// A `LiquidityKey` with its symbol as a character sequence.
pub type LiquidityKeyView = (Seq<char>, i16, i64);

/// The view of a key.
pub open spec fn key_view(k: LiquidityKey) -> LiquidityKeyView {
    (k.0@, k.1, k.2)
}

/// The record decodes as a trade update.
pub open spec fn trade_update_decodes(r: RawRecord) -> bool {
    let p = r.value@;
    key_ok(r.key@) && !tu_truncated(p) && p[tu_flag_at(p)] <= 1 && p.len() == tu_end(p)
}

/// What a decodable trade update says of its order's liquidity: nothing when
/// its cumulative filled quantity is zero or negative or its client order id
/// is 0, else the order and whether it made or took liquidity.
pub open spec fn observation(r: RawRecord) -> Option<(LiquidityKeyView, LiquidityRole)> {
    let p = r.value@;
    let s = tu_symbol_end(p);
    let quantity = le8(p, s + 27) as u64;
    let client_order_id = signed64(le8(p, s + 8));
    if lt_zero(quantity) || is_zero(quantity) || client_order_id == 0 {
        None
    } else {
        Some(
            (
                (string_at(p, 24), p[s + 26] as i16, client_order_id as i64),
                if p[s + 25] != 0 {
                    LiquidityRole::Maker
                } else {
                    LiquidityRole::Taker
                },
            ),
        )
    }
}

/// The records of all column families, family after family.
pub open spec fn all_records(families: Seq<(String, Vec<RawRecord>)>) -> Seq<RawRecord>
    decreases families.len(),
{
    if families.len() == 0 {
        Seq::empty()
    } else {
        all_records(families.drop_last()) + families.last().1@
    }
}

/// The observations of some decodable records, in order.
pub open spec fn observations(records: Seq<RawRecord>) -> Seq<(LiquidityKeyView, LiquidityRole)>
    decreases records.len(),
{
    if records.len() == 0 {
        Seq::empty()
    } else {
        match observation(records.last()) {
            Some(o) => observations(records.drop_last()).push(o),
            None => observations(records.drop_last()),
        }
    }
}

/// The role of each observed order: the first observation's role, turned
/// `Unknown` by any observation that disagrees.
pub open spec fn merged_roles(obs: Seq<(LiquidityKeyView, LiquidityRole)>) -> Map<LiquidityKeyView, LiquidityRole>
    decreases obs.len(),
{
    if obs.len() == 0 {
        Map::empty()
    } else {
        let m = merged_roles(obs.drop_last());
        let (k, r) = obs.last();
        if m.contains_key(k) {
            if m[k] != r {
                m.insert(k, LiquidityRole::Unknown)
            } else {
                m
            }
        } else {
            m.insert(k, r)
        }
    }
}

/// The roles listed, as a map.
pub open spec fn roles_map(entries: Seq<(LiquidityKey, LiquidityRole)>) -> Map<LiquidityKeyView, LiquidityRole>
    decreases entries.len(),
{
    if entries.len() == 0 {
        Map::empty()
    } else {
        roles_map(entries.drop_last()).insert(key_view(entries.last().0), entries.last().1)
    }
}

/// No order is listed twice.
pub open spec fn orders_unique(entries: Seq<(LiquidityKey, LiquidityRole)>) -> bool {
    forall|i: int, j: int| 0 <= i < j < entries.len() ==> key_view(#[trigger] entries[i].0) != key_view(#[trigger] entries[j].0)
}

proof fn lemma_roles_map_has(entries: Seq<(LiquidityKey, LiquidityRole)>, k: LiquidityKeyView)
    requires
        orders_unique(entries),
    ensures
        roles_map(entries).contains_key(k) <==> exists|i: int| 0 <= i < entries.len() && key_view(#[trigger] entries[i].0) == k,
        forall|i: int| 0 <= i < entries.len() && key_view(#[trigger] entries[i].0) == k ==> roles_map(entries)[k] == entries[i].1,
    decreases entries.len(),
{
    if entries.len() > 0 {
        let init = entries.drop_last();
        assert(orders_unique(init)) by {
            assert forall|i: int, j: int| 0 <= i < j < init.len() implies key_view(#[trigger] init[i].0) != key_view(#[trigger] init[j].0) by {
                assert(init[i] == entries[i] && init[j] == entries[j]);
            }
        }
        lemma_roles_map_has(init, k);
        if roles_map(entries).contains_key(k) && key_view(entries.last().0) != k {
            let i = choose|i: int| 0 <= i < init.len() && key_view(#[trigger] init[i].0) == k;
            assert(entries[i] == init[i]);
        }
        if exists|i: int| 0 <= i < entries.len() && key_view(#[trigger] entries[i].0) == k {
            let i = choose|i: int| 0 <= i < entries.len() && key_view(#[trigger] entries[i].0) == k;
            if i < entries.len() - 1 {
                assert(init[i] == entries[i]);
            }
        }
        assert forall|i: int| 0 <= i < entries.len() && key_view(#[trigger] entries[i].0) == k implies roles_map(entries)[k]
            == entries[i].1 by {
            if i < entries.len() - 1 {
                assert(init[i] == entries[i]);
            }
        }
    }
}

proof fn lemma_roles_map_update(entries: Seq<(LiquidityKey, LiquidityRole)>, i: int, key: LiquidityKey, r: LiquidityRole)
    requires
        orders_unique(entries),
        0 <= i < entries.len(),
        key_view(key) == key_view(entries[i].0),
    ensures
        orders_unique(entries.update(i, (key, r))),
        roles_map(entries.update(i, (key, r))) == roles_map(entries).insert(key_view(entries[i].0), r),
{
    let u = entries.update(i, (key, r));
    assert(orders_unique(u)) by {
        assert forall|a: int, b: int| 0 <= a < b < u.len() implies key_view(#[trigger] u[a].0) != key_view(#[trigger] u[b].0) by {
            assert(key_view(u[a].0) == key_view(entries[a].0));
            assert(key_view(u[b].0) == key_view(entries[b].0));
        }
    }
    let k = key_view(entries[i].0);
    lemma_roles_map_has(entries, k);
    lemma_roles_map_has(u, k);
    assert forall|x: LiquidityKeyView| #![auto] roles_map(u).contains_key(x) == roles_map(entries).insert(k, r).contains_key(x) by {
        lemma_roles_map_has(entries, x);
        lemma_roles_map_has(u, x);
        if roles_map(u).contains_key(x) {
            let j = choose|j: int| 0 <= j < u.len() && key_view(#[trigger] u[j].0) == x;
            assert(key_view(entries[j].0) == x);
        }
        if roles_map(entries).contains_key(x) {
            let j = choose|j: int| 0 <= j < entries.len() && key_view(#[trigger] entries[j].0) == x;
            assert(key_view(u[j].0) == x);
        }
        if x == k {
            assert(key_view(u[i].0) == x);
        }
    }
    assert forall|x: LiquidityKeyView| #[trigger] roles_map(u).contains_key(x) implies roles_map(u)[x] == roles_map(entries).insert(k, r)[x] by {
        lemma_roles_map_has(entries, x);
        lemma_roles_map_has(u, x);
        let j = choose|j: int| 0 <= j < u.len() && key_view(#[trigger] u[j].0) == x;
        if j != i {
            assert(key_view(entries[j].0) == x);
            assert(x != k);
        } else {
            assert(x == k);
        }
    }
    assert(roles_map(u) =~= roles_map(entries).insert(k, r));
}

/// An order's merged role is the role every observation of it gives, and
/// `Unknown` exactly when two observations of it disagree; an order is
/// listed exactly when something observed it.
pub proof fn lemma_merged_role_is_agreement(obs: Seq<(LiquidityKeyView, LiquidityRole)>, k: LiquidityKeyView)
    requires
        forall|i: int| 0 <= i < obs.len() ==> (#[trigger] obs[i]).1 != LiquidityRole::Unknown,
    ensures
        merged_roles(obs).contains_key(k) <==> exists|i: int| 0 <= i < obs.len() && (#[trigger] obs[i]).0 == k,
        forall|i: int| 0 <= i < obs.len() && (#[trigger] obs[i]).0 == k ==> (merged_roles(obs)[k] == obs[i].1
            || merged_roles(obs)[k] == LiquidityRole::Unknown),
        merged_roles(obs).contains_key(k) ==> (merged_roles(obs)[k] == LiquidityRole::Unknown <==> exists|i: int, j: int|
            0 <= i < obs.len() && 0 <= j < obs.len() && (#[trigger] obs[i]).0 == k && (#[trigger] obs[j]).0 == k
                && obs[i].1 != obs[j].1),
    decreases obs.len(),
{
    if obs.len() > 0 {
        let init = obs.drop_last();
        let last = obs.last();
        let n = obs.len() - 1;
        assert forall|i: int| 0 <= i < init.len() implies (#[trigger] init[i]).1 != LiquidityRole::Unknown by {
            assert(init[i] == obs[i]);
        }
        lemma_merged_role_is_agreement(init, k);
        let m = merged_roles(init);
        assert forall|i: int| 0 <= i < init.len() implies #[trigger] init[i] == obs[i] by {}
        assert(obs[n] == last);
        if last.0 != k {
            if exists|i: int| 0 <= i < obs.len() && (#[trigger] obs[i]).0 == k {
                let i = choose|i: int| 0 <= i < obs.len() && (#[trigger] obs[i]).0 == k;
                assert(init[i].0 == k);
            }
            if merged_roles(obs).contains_key(k) && merged_roles(obs)[k] == LiquidityRole::Unknown {
                let (i, j) = choose|i: int, j: int|
                    0 <= i < init.len() && 0 <= j < init.len() && (#[trigger] init[i]).0 == k && (#[trigger] init[j]).0 == k
                        && init[i].1 != init[j].1;
                assert(obs[i].0 == k && obs[j].0 == k);
            }
            assert forall|i: int, j: int|
                0 <= i < obs.len() && 0 <= j < obs.len() && (#[trigger] obs[i]).0 == k && (#[trigger] obs[j]).0 == k
                    && obs[i].1 != obs[j].1 implies merged_roles(obs)[k] == LiquidityRole::Unknown by {
                assert(init[i].0 == k && init[j].0 == k);
            }
        } else if m.contains_key(k) {
            let w = choose|i: int| 0 <= i < init.len() && (#[trigger] init[i]).0 == k;
            assert(obs[w].0 == k);
            if m[k] != last.1 {
                assert(merged_roles(obs)[k] == LiquidityRole::Unknown);
                if m[k] == LiquidityRole::Unknown {
                    let (i, j) = choose|i: int, j: int|
                        0 <= i < init.len() && 0 <= j < init.len() && (#[trigger] init[i]).0 == k && (#[trigger] init[j]).0
                            == k && init[i].1 != init[j].1;
                    assert(obs[i].0 == k && obs[j].0 == k);
                } else {
                    assert(obs[w].1 == m[k]);
                    assert(obs[n].0 == k && obs[w].1 != obs[n].1);
                }
            } else {
                assert(merged_roles(obs) == m);
                if m[k] == LiquidityRole::Unknown {
                    let (i, j) = choose|i: int, j: int|
                        0 <= i < init.len() && 0 <= j < init.len() && (#[trigger] init[i]).0 == k && (#[trigger] init[j]).0
                            == k && init[i].1 != init[j].1;
                    assert(obs[i].0 == k && obs[j].0 == k);
                }
                assert forall|i: int, j: int|
                    0 <= i < obs.len() && 0 <= j < obs.len() && (#[trigger] obs[i]).0 == k && (#[trigger] obs[j]).0 == k
                        && obs[i].1 != obs[j].1 implies merged_roles(obs)[k] == LiquidityRole::Unknown by {
                    if i < n && j < n {
                        assert(init[i].0 == k && init[j].0 == k);
                    } else if i < n {
                        assert(init[i].0 == k);
                        assert(obs[i].1 == m[k] || m[k] == LiquidityRole::Unknown);
                    } else if j < n {
                        assert(init[j].0 == k);
                        assert(obs[j].1 == m[k] || m[k] == LiquidityRole::Unknown);
                    }
                }
            }
        } else {
            assert(merged_roles(obs)[k] == last.1);
            assert forall|i: int| 0 <= i < obs.len() && (#[trigger] obs[i]).0 == k implies i == n by {
                if i < n {
                    assert(init[i].0 == k);
                }
            }
        }
    }
}

/// A trade update that does not decode, and where it stands.
#[derive(Debug, Clone)]
pub struct UndecodableTradeUpdate {
    pub column_family: String,
    pub family_index: usize,
    pub record_index: usize,
    pub record_key: Vec<u8>,
    pub cause: ModelError,
}

proof fn lemma_all_records_step(families: Seq<(String, Vec<RawRecord>)>, i: int)
    requires
        0 <= i < families.len(),
    ensures
        all_records(families.take(i + 1)) == all_records(families.take(i)) + families[i].1@,
{
    assert(families.take(i + 1).drop_last() =~= families.take(i));
}

proof fn lemma_observations_step(records: Seq<RawRecord>, r: RawRecord)
    ensures
        observations(records.push(r)) == (match observation(r) {
            Some(o) => observations(records).push(o),
            None => observations(records),
        }),
{
    assert(records.push(r).drop_last() =~= records);
}

/// The maker/taker role of every order that the trade update records (by
/// column family) observe. Refused at the first record that does not decode.
pub fn decode_liquidity_by_order(families: &Vec<(String, Vec<RawRecord>)>) -> (r: Result<
    Vec<(LiquidityKey, LiquidityRole)>,
    UndecodableTradeUpdate,
>)
    ensures
        r is Ok <==> forall|k: int| 0 <= k < all_records(families@).len() ==> trade_update_decodes(
            #[trigger] all_records(families@)[k],
        ),
        r matches Ok(v) ==> orders_unique(v@) && roles_map(v@) == merged_roles(observations(all_records(families@))),
        r matches Err(e) ==> {
            &&& e.family_index < families@.len()
            &&& e.record_index < families@[e.family_index as int].1@.len()
            &&& e.column_family@ == families@[e.family_index as int].0@
            &&& e.record_key@ == families@[e.family_index as int].1@[e.record_index as int].key@
            &&& !trade_update_decodes(families@[e.family_index as int].1@[e.record_index as int])
            &&& forall|k: int| 0 <= k < all_records(families@.take(e.family_index as int)).len()
                + e.record_index ==> trade_update_decodes(#[trigger] all_records(families@)[k])
        },
{
    let mut roles: Vec<(LiquidityKey, LiquidityRole)> = Vec::new();
    let mut i: usize = 0;
    proof {
        assert(families@.take(0) =~= Seq::<(String, Vec<RawRecord>)>::empty());
    }
    while i < families.len()
        invariant
            i <= families@.len(),
            orders_unique(roles@),
            roles_map(roles@) == merged_roles(observations(all_records(families@.take(i as int)))),
            forall|k: int| 0 <= k < all_records(families@.take(i as int)).len() ==> trade_update_decodes(
                #[trigger] all_records(families@.take(i as int))[k],
            ),
        decreases families@.len() - i,
    {
        let family = &families[i].1;
        let ghost before = all_records(families@.take(i as int));
        let mut j: usize = 0;
        proof {
            assert(family@.take(0) =~= Seq::<RawRecord>::empty());
            assert(before + family@.take(0) =~= before);
        }
        while j < family.len()
            invariant
                i < families@.len(),
                family@ == families@[i as int].1@,
                before == all_records(families@.take(i as int)),
                j <= family@.len(),
                orders_unique(roles@),
                roles_map(roles@) == merged_roles(observations(before + family@.take(j as int))),
                forall|k: int| 0 <= k < (before + family@.take(j as int)).len() ==> trade_update_decodes(
                    #[trigger] (before + family@.take(j as int))[k],
                ),
            decreases family@.len() - j,
        {
            let record = &family[j];
            let ghost seen = before + family@.take(j as int);
            proof {
                assert(before + family@.take(j + 1) =~= seen.push(family@[j as int]));
                lemma_observations_step(seen, family@[j as int]);
            }
            let event = match decode_trade_update(record.key.as_slice(), record.value.as_slice()) {
                Ok(e) => e,
                Err(cause) => {
                    proof {
                        lemma_first_failure(families@, i as int, j as int);
                    }
                    return Err(
                        UndecodableTradeUpdate {
                            column_family: families[i].0.clone(),
                            family_index: i,
                            record_index: j,
                            record_key: record.key.clone(),
                            cause,
                        },
                    );
                },
            };
            proof {
                assert(trade_update_decodes(family@[j as int]));
                assert(trade_update_fields(record.key@, record.value@, event));
            }
            let quantity = event.cumulative_filled_quantity_bits;
            let counts = !(f64_lt_zero(quantity) || f64_is_zero(quantity)) && event.client_order_id != 0;
            if counts {
                let observed = if event.is_maker {
                    LiquidityRole::Maker
                } else {
                    LiquidityRole::Taker
                };
                let ghost o = ((event.symbol@, event.venue_code, event.client_order_id), observed);
                proof {
                    assert(observation(family@[j as int]) == Some(o));
                    assert(observations(seen).push(o).drop_last() =~= observations(seen));
                }
                merge_role(&mut roles, event.symbol, event.venue_code, event.client_order_id, observed);
            } else {
                proof {
                    assert(observation(family@[j as int]) is None);
                }
            }
            j = j + 1;
            proof {
                assert(seen.push(family@[j - 1]) =~= before + family@.take(j as int));
                assert forall|k: int| 0 <= k < (before + family@.take(j as int)).len() implies trade_update_decodes(
                    #[trigger] (before + family@.take(j as int))[k],
                ) by {
                    if k < seen.len() {
                        assert((before + family@.take(j as int))[k] == seen[k]);
                    }
                }
            }
        }
        proof {
            assert(family@.take(family@.len() as int) =~= family@);
            lemma_all_records_step(families@, i as int);
        }
        i = i + 1;
    }
    proof {
        assert(families@.take(families@.len() as int) =~= families@);
    }
    Ok(roles)
}

proof fn lemma_first_failure(families: Seq<(String, Vec<RawRecord>)>, i: int, j: int)
    requires
        0 <= i < families.len(),
        0 <= j < families[i].1@.len(),
    ensures
        all_records(families).len() >= all_records(families.take(i)).len() + families[i].1@.len(),
        forall|k: int| 0 <= k < all_records(families.take(i)).len() + j ==> #[trigger] all_records(families)[k]
            == (all_records(families.take(i)) + families[i].1@.take(j))[k],
        all_records(families)[all_records(families.take(i)).len() + j] == families[i].1@[j],
{
    lemma_all_records_prefix(families, i + 1);
    lemma_all_records_step(families, i);
}

proof fn lemma_all_records_prefix(families: Seq<(String, Vec<RawRecord>)>, n: int)
    requires
        0 <= n <= families.len(),
    ensures
        all_records(families.take(n)).len() <= all_records(families).len(),
        forall|k: int| 0 <= k < all_records(families.take(n)).len() ==> #[trigger] all_records(families)[k]
            == all_records(families.take(n))[k],
    decreases families.len() - n,
{
    if n < families.len() {
        lemma_all_records_prefix(families, n + 1);
        lemma_all_records_step(families, n);
    } else {
        assert(families.take(n) =~= families);
    }
}

/// Adds one observation to the roles.
fn merge_role(roles: &mut Vec<(LiquidityKey, LiquidityRole)>, symbol: String, venue_code: i16, client_order_id: i64, observed: LiquidityRole)
    requires
        orders_unique(old(roles)@),
        observed != LiquidityRole::Unknown,
    ensures
        orders_unique(final(roles)@),
        roles_map(final(roles)@) == ({
            let m = roles_map(old(roles)@);
            let k = (symbol@, venue_code, client_order_id);
            if m.contains_key(k) {
                if m[k] != observed {
                    m.insert(k, LiquidityRole::Unknown)
                } else {
                    m
                }
            } else {
                m.insert(k, observed)
            }
        }),
{
    let ghost k = (symbol@, venue_code, client_order_id);
    proof {
        lemma_roles_map_has(roles@, k);
    }
    let mut i: usize = 0;
    while i < roles.len()
        invariant
            roles@ == old(roles)@,
            orders_unique(roles@),
            k == (symbol@, venue_code, client_order_id),
            observed != LiquidityRole::Unknown,
            i <= roles@.len(),
            forall|a: int| 0 <= a < i ==> key_view(#[trigger] roles@[a].0) != k,
        decreases roles@.len() - i,
    {
        let same = roles[i].0.1 == venue_code && roles[i].0.2 == client_order_id && str_eq(
            roles[i].0.0.as_str(),
            symbol.as_str(),
        );
        if same {
            assert(key_view(roles@[i as int].0) == k);
            proof {
                lemma_roles_map_has(roles@, k);
            }
            let current = roles[i].1;
            if current != observed {
                let key = (symbol, venue_code, client_order_id);
                proof {
                    lemma_roles_map_update(roles@, i as int, key, LiquidityRole::Unknown);
                }
                roles.set(i, (key, LiquidityRole::Unknown));
            }
            return;
        }
        i = i + 1;
    }
    let ghost before = roles@;
    roles.push(((symbol, venue_code, client_order_id), observed));
    proof {
        assert(roles@.drop_last() =~= before);
        assert forall|a: int, b: int| 0 <= a < b < roles@.len() implies key_view(#[trigger] roles@[a].0) != key_view(
            #[trigger] roles@[b].0,
        ) by {
            if b < before.len() {
                assert(roles@[a] == before[a] && roles@[b] == before[b]);
            } else {
                assert(roles@[a] == before[a]);
            }
        }
    }
}

/// The liquidity role of a fill: the one the trade updates give its order,
/// else the one its order type implies.
pub fn liquidity_role_for_event(event: &UniformOrderEvent, roles: &Vec<(LiquidityKey, LiquidityRole)>) -> (r: LiquidityRole)
    requires
        orders_unique(roles@),
    ensures
        r == match roles_map(roles@).get((event.symbol@, event.venue_code, event.client_order_id)) {
            Some(x) => x,
            None => order_type_role(event.order_type_code),
        },
{
    let ghost k = (event.symbol@, event.venue_code, event.client_order_id);
    proof {
        lemma_roles_map_has(roles@, k);
    }
    let mut i: usize = 0;
    while i < roles.len()
        invariant
            k == (event.symbol@, event.venue_code, event.client_order_id),
            orders_unique(roles@),
            i <= roles@.len(),
            forall|a: int| 0 <= a < i ==> key_view(#[trigger] roles@[a].0) != k,
        decreases roles@.len() - i,
    {
        if roles[i].0.1 == event.venue_code && roles[i].0.2 == event.client_order_id && str_eq(
            roles[i].0.0.as_str(),
            event.symbol.as_str(),
        ) {
            assert(key_view(roles@[i as int].0) == k);
            proof {
                lemma_roles_map_has(roles@, k);
            }
            return liquidity_role(Some(roles[i].1), event.order_type_code);
        }
        i = i + 1;
    }
    liquidity_role(None, event.order_type_code)
}

} // verus!
