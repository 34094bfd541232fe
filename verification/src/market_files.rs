//! Which markets get a log file of their own.

use vstd::prelude::*;
use vstd::string::{StrSliceExecFns, StringExecFns};

verus! {

/// Placeholder markets (stand-ins used when no real market was found) have
/// condition ids that begin with "dummy_".
pub open spec fn is_placeholder(condition_id: Seq<char>) -> bool {
    condition_id.len() >= "dummy_"@.len() && condition_id.subrange(0, "dummy_"@.len() as int)
        == "dummy_"@
}

/// Whether a condition id names a placeholder market, which gets no log
/// file of its own.
pub fn is_dummy_market(condition_id: &str) -> (r: bool)
    ensures
        r == is_placeholder(condition_id@),
{
    let prefix = "dummy_";
    let plen = prefix.unicode_len();
    let slen = condition_id.unicode_len();
    if slen < plen {
        return false;
    }
    let mut i: usize = 0;
    while i < plen
        invariant
            prefix@ == "dummy_"@,
            plen == prefix@.len(),
            slen == condition_id@.len(),
            plen <= slen,
            i <= plen,
            forall|j: int| 0 <= j < i ==> condition_id@[j] == prefix@[j],
        decreases plen - i,
    {
        if condition_id.get_char(i) != prefix.get_char(i) {
            assert(condition_id@.subrange(0, plen as int)[i as int] != prefix@[i as int]);
            return false;
        }
        i = i + 1;
    }
    assert(condition_id@.subrange(0, plen as int) =~= prefix@);
    true
}

/// Which of the four markets of a new period get the start message in a
/// file of their own: each unless it is its placeholder market; never a
/// market whose id marks it as a placeholder.
pub fn market_start_file_targets(
    eth_condition_id: &str,
    btc_condition_id: &str,
    sol_condition_id: &str,
    xrp_condition_id: &str,
) -> (r: (bool, bool, bool, bool))
    ensures
        r.0 == (eth_condition_id@ != "dummy_eth_fallba"@ && !is_placeholder(eth_condition_id@)),
        r.1 == (btc_condition_id@ != "dummy_btc_fallba"@ && !is_placeholder(btc_condition_id@)),
        r.2 == (sol_condition_id@ != "dummy_solana_fal"@ && !is_placeholder(sol_condition_id@)),
        r.3 == (xrp_condition_id@ != "dummy_xrp_fallba"@ && !is_placeholder(xrp_condition_id@)),
{
    let eth = !(String::from_str(eth_condition_id) == String::from_str("dummy_eth_fallba"))
        && !is_dummy_market(eth_condition_id);
    let btc = !(String::from_str(btc_condition_id) == String::from_str("dummy_btc_fallba"))
        && !is_dummy_market(btc_condition_id);
    let sol = !(String::from_str(sol_condition_id) == String::from_str("dummy_solana_fal"))
        && !is_dummy_market(sol_condition_id);
    let xrp = !(String::from_str(xrp_condition_id) == String::from_str("dummy_xrp_fallba"))
        && !is_dummy_market(xrp_condition_id);
    (eth, btc, sol, xrp)
}

} // verus!
