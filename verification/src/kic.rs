//! Key-indicator payloads: the list of proselytizing areas the
//! missionary can fetch record batches for.

use vstd::prelude::*;

verus! {

/// One area's key-indicator entry; only the area identifier is used.
#[derive(Debug, Clone)]
pub struct KeyIndicator {
    pub pros_area_id: u64,
}

/// The decoded key-indicators payload.
#[derive(Debug, Clone)]
pub struct KeyIndicatorsResponse {
    pub area_key_indicators: Vec<KeyIndicator>,
}

/// The area identifier of each key indicator, in payload order.
pub fn extract_pros_area_ids(res: &KeyIndicatorsResponse) -> (ids: Vec<u64>)
    ensures
        ids@ == res.area_key_indicators@.map_values(|k: KeyIndicator| k.pros_area_id),
{
    let mut ids: Vec<u64> = Vec::new();
    let n = res.area_key_indicators.len();
    for i in 0..n
        invariant
            n == res.area_key_indicators.len(),
            ids@ == res.area_key_indicators@.take(i as int).map_values(
                |k: KeyIndicator| k.pros_area_id,
            ),
    {
        ids.push(res.area_key_indicators[i].pros_area_id);
        assert(res.area_key_indicators@.take(i + 1) =~= res.area_key_indicators@.take(i as int).push(
            res.area_key_indicators@[i as int],
        ));
    }
    assert(res.area_key_indicators@.take(n as int) =~= res.area_key_indicators@);
    ids
}

} // verus!
