//! The payload fields of each event type, by which event handler
//! parameters are matched by name.

use vstd::prelude::*;

use crate::text::text_eq;

verus! {

/// The payload fields of an event type, each with whether its type is a
/// copy type (passed by value) or not (passed by reference); none for an
/// unknown event type.
pub open spec fn payload_fields(event: Seq<char>) -> Option<Seq<(Seq<char>, bool)>> {
    if event == "NewBlock"@ {
        Some(seq![("block_hash"@, false), ("height"@, true)])
    } else if event == "NewTransaction"@ {
        Some(seq![("tx_hash"@, false)])
    } else if event == "BlockDisconnected"@ {
        Some(seq![("hash"@, false), ("height"@, true)])
    } else if event == "ChainReorg"@ {
        Some(seq![("old_tip"@, false), ("new_tip"@, false)])
    } else if event == "ModuleLoaded"@ {
        Some(seq![("module_name"@, false), ("version"@, false)])
    } else if event == "ModuleUnloaded"@ {
        Some(seq![("module_name"@, false), ("version"@, false)])
    } else if event == "ModuleReloaded"@ {
        Some(seq![("module_name"@, false), ("old_version"@, false), ("new_version"@, false)])
    } else if event == "BlockMined"@ {
        Some(seq![("block_hash"@, false), ("height"@, true), ("miner_id"@, false)])
    } else if event == "BlockTemplateUpdated"@ {
        Some(seq![("prev_hash"@, false), ("height"@, true), ("tx_count"@, true)])
    } else if event == "MiningDifficultyChanged"@ {
        Some(seq![("old_difficulty"@, true), ("new_difficulty"@, true), ("height"@, true)])
    } else if event == "MiningJobCreated"@ {
        Some(seq![("job_id"@, false), ("prev_hash"@, false), ("height"@, true)])
    } else if event == "ShareSubmitted"@ {
        Some(seq![("job_id"@, false), ("share_hash"@, false), ("miner_id"@, false)])
    } else if event == "MergeMiningReward"@ {
        Some(seq![("secondary_chain"@, false), ("reward_amount"@, true), ("block_hash"@, false)])
    } else if event == "MiningPoolConnected"@ {
        Some(seq![("pool_url"@, false), ("pool_id"@, false)])
    } else if event == "MiningPoolDisconnected"@ {
        Some(seq![("pool_url"@, false), ("reason"@, false)])
    } else if event == "PeerConnected"@ {
        Some(seq![("peer_addr"@, false), ("transport_type"@, false), ("services"@, true), ("version"@, true)])
    } else if event == "PeerDisconnected"@ {
        Some(seq![("peer_addr"@, false), ("reason"@, false)])
    } else if event == "PeerBanned"@ {
        Some(seq![("peer_addr"@, false), ("reason"@, false), ("ban_duration_seconds"@, true)])
    } else if event == "PeerUnbanned"@ {
        Some(seq![("peer_addr"@, false)])
    } else if event == "MempoolTransactionAdded"@ {
        Some(seq![("tx_hash"@, false), ("fee_rate"@, true), ("mempool_size"@, true)])
    } else if event == "MempoolTransactionRemoved"@ {
        Some(seq![("tx_hash"@, false), ("reason"@, false), ("mempool_size"@, true)])
    } else if event == "MempoolCleared"@ {
        Some(seq![("cleared_count"@, true)])
    } else if event == "FeeRateChanged"@ {
        Some(seq![("old_rate"@, true), ("new_rate"@, true), ("target_blocks"@, true)])
    } else if event == "NodeStartupCompleted"@ {
        Some(seq![("duration_ms"@, true), ("components"@, false)])
    } else if event == "NodeShutdownCompleted"@ {
        Some(seq![("duration_ms"@, true)])
    } else if event == "NodeShutdown"@ {
        Some(seq![("reason"@, false), ("timeout_seconds"@, true)])
    } else if event == "ConfigLoaded"@ {
        Some(seq![("changed_sections"@, false), ("config_json"@, false)])
    } else if event == "DataMaintenance"@ {
        Some(seq![("operation"@, false), ("urgency"@, false), ("reason"@, false), ("target_age_days"@, false), ("timeout_seconds"@, false)])
    } else if event == "DiskSpaceLow"@ {
        Some(seq![("available_bytes"@, true), ("total_bytes"@, true), ("percent_free"@, true), ("disk_path"@, false)])
    } else if event == "HealthCheck"@ {
        Some(seq![("check_type"@, false), ("node_healthy"@, true), ("health_report"@, false)])
    } else {
        None
    }
}

/// The fields of a payload as values.
pub open spec fn fields_view(v: Seq<(&'static str, bool)>) -> Seq<(Seq<char>, bool)> {
    v.map_values(|p: (&'static str, bool)| (p.0@, p.1))
}

/// Payload field info for an event type: (field_name, is_copy_type).
pub fn payload_fields_for_event(event_ident: &str) -> (r: Option<Vec<(&'static str, bool)>>)
    ensures
        payload_fields(event_ident@) is None ==> r is None,
        payload_fields(event_ident@) matches Some(fs) ==> (r matches Some(v) && fields_view(v@) == fs),
{
    if text_eq(event_ident, "NewBlock") {
        let v: Vec<(&'static str, bool)> = vec![("block_hash", false), ("height", true)];
        assert(fields_view(v@) =~= payload_fields(event_ident@)->0);
        Some(v)
    } else if text_eq(event_ident, "NewTransaction") {
        let v: Vec<(&'static str, bool)> = vec![("tx_hash", false)];
        assert(fields_view(v@) =~= payload_fields(event_ident@)->0);
        Some(v)
    } else if text_eq(event_ident, "BlockDisconnected") {
        let v: Vec<(&'static str, bool)> = vec![("hash", false), ("height", true)];
        assert(fields_view(v@) =~= payload_fields(event_ident@)->0);
        Some(v)
    } else if text_eq(event_ident, "ChainReorg") {
        let v: Vec<(&'static str, bool)> = vec![("old_tip", false), ("new_tip", false)];
        assert(fields_view(v@) =~= payload_fields(event_ident@)->0);
        Some(v)
    } else if text_eq(event_ident, "ModuleLoaded") {
        let v: Vec<(&'static str, bool)> = vec![("module_name", false), ("version", false)];
        assert(fields_view(v@) =~= payload_fields(event_ident@)->0);
        Some(v)
    } else if text_eq(event_ident, "ModuleUnloaded") {
        let v: Vec<(&'static str, bool)> = vec![("module_name", false), ("version", false)];
        assert(fields_view(v@) =~= payload_fields(event_ident@)->0);
        Some(v)
    } else if text_eq(event_ident, "ModuleReloaded") {
        let v: Vec<(&'static str, bool)> = vec![("module_name", false), ("old_version", false), ("new_version", false)];
        assert(fields_view(v@) =~= payload_fields(event_ident@)->0);
        Some(v)
    } else if text_eq(event_ident, "BlockMined") {
        let v: Vec<(&'static str, bool)> = vec![("block_hash", false), ("height", true), ("miner_id", false)];
        assert(fields_view(v@) =~= payload_fields(event_ident@)->0);
        Some(v)
    } else if text_eq(event_ident, "BlockTemplateUpdated") {
        let v: Vec<(&'static str, bool)> = vec![("prev_hash", false), ("height", true), ("tx_count", true)];
        assert(fields_view(v@) =~= payload_fields(event_ident@)->0);
        Some(v)
    } else if text_eq(event_ident, "MiningDifficultyChanged") {
        let v: Vec<(&'static str, bool)> = vec![("old_difficulty", true), ("new_difficulty", true), ("height", true)];
        assert(fields_view(v@) =~= payload_fields(event_ident@)->0);
        Some(v)
    } else if text_eq(event_ident, "MiningJobCreated") {
        let v: Vec<(&'static str, bool)> = vec![("job_id", false), ("prev_hash", false), ("height", true)];
        assert(fields_view(v@) =~= payload_fields(event_ident@)->0);
        Some(v)
    } else if text_eq(event_ident, "ShareSubmitted") {
        let v: Vec<(&'static str, bool)> = vec![("job_id", false), ("share_hash", false), ("miner_id", false)];
        assert(fields_view(v@) =~= payload_fields(event_ident@)->0);
        Some(v)
    } else if text_eq(event_ident, "MergeMiningReward") {
        let v: Vec<(&'static str, bool)> = vec![("secondary_chain", false), ("reward_amount", true), ("block_hash", false)];
        assert(fields_view(v@) =~= payload_fields(event_ident@)->0);
        Some(v)
    } else if text_eq(event_ident, "MiningPoolConnected") {
        let v: Vec<(&'static str, bool)> = vec![("pool_url", false), ("pool_id", false)];
        assert(fields_view(v@) =~= payload_fields(event_ident@)->0);
        Some(v)
    } else if text_eq(event_ident, "MiningPoolDisconnected") {
        let v: Vec<(&'static str, bool)> = vec![("pool_url", false), ("reason", false)];
        assert(fields_view(v@) =~= payload_fields(event_ident@)->0);
        Some(v)
    } else if text_eq(event_ident, "PeerConnected") {
        let v: Vec<(&'static str, bool)> = vec![("peer_addr", false), ("transport_type", false), ("services", true), ("version", true)];
        assert(fields_view(v@) =~= payload_fields(event_ident@)->0);
        Some(v)
    } else if text_eq(event_ident, "PeerDisconnected") {
        let v: Vec<(&'static str, bool)> = vec![("peer_addr", false), ("reason", false)];
        assert(fields_view(v@) =~= payload_fields(event_ident@)->0);
        Some(v)
    } else if text_eq(event_ident, "PeerBanned") {
        let v: Vec<(&'static str, bool)> = vec![("peer_addr", false), ("reason", false), ("ban_duration_seconds", true)];
        assert(fields_view(v@) =~= payload_fields(event_ident@)->0);
        Some(v)
    } else if text_eq(event_ident, "PeerUnbanned") {
        let v: Vec<(&'static str, bool)> = vec![("peer_addr", false)];
        assert(fields_view(v@) =~= payload_fields(event_ident@)->0);
        Some(v)
    } else if text_eq(event_ident, "MempoolTransactionAdded") {
        let v: Vec<(&'static str, bool)> = vec![("tx_hash", false), ("fee_rate", true), ("mempool_size", true)];
        assert(fields_view(v@) =~= payload_fields(event_ident@)->0);
        Some(v)
    } else if text_eq(event_ident, "MempoolTransactionRemoved") {
        let v: Vec<(&'static str, bool)> = vec![("tx_hash", false), ("reason", false), ("mempool_size", true)];
        assert(fields_view(v@) =~= payload_fields(event_ident@)->0);
        Some(v)
    } else if text_eq(event_ident, "MempoolCleared") {
        let v: Vec<(&'static str, bool)> = vec![("cleared_count", true)];
        assert(fields_view(v@) =~= payload_fields(event_ident@)->0);
        Some(v)
    } else if text_eq(event_ident, "FeeRateChanged") {
        let v: Vec<(&'static str, bool)> = vec![("old_rate", true), ("new_rate", true), ("target_blocks", true)];
        assert(fields_view(v@) =~= payload_fields(event_ident@)->0);
        Some(v)
    } else if text_eq(event_ident, "NodeStartupCompleted") {
        let v: Vec<(&'static str, bool)> = vec![("duration_ms", true), ("components", false)];
        assert(fields_view(v@) =~= payload_fields(event_ident@)->0);
        Some(v)
    } else if text_eq(event_ident, "NodeShutdownCompleted") {
        let v: Vec<(&'static str, bool)> = vec![("duration_ms", true)];
        assert(fields_view(v@) =~= payload_fields(event_ident@)->0);
        Some(v)
    } else if text_eq(event_ident, "NodeShutdown") {
        let v: Vec<(&'static str, bool)> = vec![("reason", false), ("timeout_seconds", true)];
        assert(fields_view(v@) =~= payload_fields(event_ident@)->0);
        Some(v)
    } else if text_eq(event_ident, "ConfigLoaded") {
        let v: Vec<(&'static str, bool)> = vec![("changed_sections", false), ("config_json", false)];
        assert(fields_view(v@) =~= payload_fields(event_ident@)->0);
        Some(v)
    } else if text_eq(event_ident, "DataMaintenance") {
        let v: Vec<(&'static str, bool)> = vec![("operation", false), ("urgency", false), ("reason", false), ("target_age_days", false), ("timeout_seconds", false)];
        assert(fields_view(v@) =~= payload_fields(event_ident@)->0);
        Some(v)
    } else if text_eq(event_ident, "DiskSpaceLow") {
        let v: Vec<(&'static str, bool)> = vec![("available_bytes", true), ("total_bytes", true), ("percent_free", true), ("disk_path", false)];
        assert(fields_view(v@) =~= payload_fields(event_ident@)->0);
        Some(v)
    } else if text_eq(event_ident, "HealthCheck") {
        let v: Vec<(&'static str, bool)> = vec![("check_type", false), ("node_healthy", true), ("health_report", false)];
        assert(fields_view(v@) =~= payload_fields(event_ident@)->0);
        Some(v)
    } else {
        None
    }
}

} // verus!
