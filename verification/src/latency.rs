//! The record of how long the stages of the work took.
use vstd::prelude::*;

use crate::address::{checksummed, Address};
use crate::config::Settings;
use crate::json::{
    all_exact, append_members, empty_object, exact_text, no_members, object_members, put_number,
    put_text, text_member, unsigned_member, JsonObject, JsonValue, Members,
};

verus! {

/// Where the times of the stages are recorded, if at all.
#[derive(Debug)]
pub struct LatencyLogger {
    pub enabled: bool,
    pub log_path: String,
    pub provider_label: String,
}

impl Clone for LatencyLogger {
    fn clone(&self) -> (copy: LatencyLogger)
        ensures
            copy == *self,
    {
        LatencyLogger {
            enabled: self.enabled,
            log_path: self.log_path.clone(),
            provider_label: self.provider_label.clone(),
        }
    }
}

/// What the record of a stage holds. Further members replace those of the same name.
pub open spec fn stage_members(
    provider: Seq<char>,
    ts_ms: u64,
    stage: Seq<char>,
    elapsed_ms: u64,
    market: Option<Address>,
    extra: Members,
) -> Members {
    let members = no_members().insert("ts_ms"@, JsonValue::Unsigned(ts_ms)).insert(
        "provider"@,
        JsonValue::Text(provider),
    ).insert("stage"@, JsonValue::Text(stage)).insert(
        "elapsed_ms"@,
        JsonValue::Unsigned(elapsed_ms),
    );
    let placed = match market {
        Some(market) => members.insert("market"@, JsonValue::Text(checksummed(market@))),
        None => members,
    };
    placed.union_prefer_right(extra)
}

/// The members of an object that may be missing.
pub open spec fn optional_members(object: Option<JsonObject>) -> Members {
    match object {
        Some(object) => object_members(object),
        None => no_members(),
    }
}

impl LatencyLogger {
    /// The logger that is configured.
    pub fn from_settings(settings: &Settings) -> (logger: LatencyLogger)
        ensures
            logger.enabled == settings.latency.enabled,
            logger.log_path == settings.latency.log_path,
            logger.provider_label == settings.latency.provider_label,
    {
        LatencyLogger {
            enabled: settings.latency.enabled,
            log_path: settings.latency.log_path.clone(),
            provider_label: settings.latency.provider_label.clone(),
        }
    }

    /// The record of a stage; `None` where the logger is off.
    pub fn record(
        &self,
        ts_ms: u64,
        stage: &str,
        elapsed_ms: u64,
        market: Option<Address>,
        extra: Option<JsonObject>,
    ) -> (record: Option<JsonObject>)
        ensures
            record is Some == self.enabled,
            record matches Some(record) ==> object_members(record) == stage_members(
                self.provider_label@,
                ts_ms,
                stage@,
                elapsed_ms,
                market,
                optional_members(extra),
            ),
    {
        if !self.enabled {
            return None;
        }
        let mut record = empty_object();
        put_number(&mut record, "ts_ms", ts_ms);
        put_text(&mut record, "provider", self.provider_label.clone());
        put_text(&mut record, "stage", stage.to_owned());
        put_number(&mut record, "elapsed_ms", elapsed_ms);
        if let Some(market) = market {
            put_text(&mut record, "market", market.to_checksummed());
        }
        let ghost placed = object_members(record);
        if let Some(extra) = extra {
            append_members(&mut record, extra);
        }
        proof {
            assert(placed.union_prefer_right(no_members()) =~= placed);
        }
        Some(record)
    }
}

/// The names of the members of the record of a stage differ.
proof fn lemma_stage_names()
    ensures
        "ts_ms"@.len() == 5,
        "provider"@.len() == 8,
        "stage"@.len() == 5,
        "elapsed_ms"@.len() == 10,
        "market"@.len() == 6,
        "ts_ms"@ != "stage"@,
{
    reveal_strlit("ts_ms");
    reveal_strlit("provider");
    reveal_strlit("stage");
    reveal_strlit("elapsed_ms");
    reveal_strlit("market");
    assert("ts_ms"@[0] != "stage"@[0]);
}

/// The record of a stage states when it ended, through which provider, which stage it was,
/// how long it took and, where one is given, for which market, each under its own name;
/// further members join these, in place of those of the same name.
pub proof fn law_stage_records_state_the_stage(
    provider: Seq<char>,
    ts_ms: u64,
    stage: Seq<char>,
    elapsed_ms: u64,
    market: Option<Address>,
    extra: Members,
    name: Seq<char>,
)
    ensures
        ({
            let record = stage_members(provider, ts_ms, stage, elapsed_ms, market, extra);
            &&& extra.contains_key(name) ==> record.contains_key(name) && record[name]
                == extra[name]
            &&& !extra.contains_key("ts_ms"@) ==> unsigned_member(record, "ts_ms"@) == Some(ts_ms)
            &&& !extra.contains_key("provider"@) ==> text_member(record, "provider"@) == Some(
                provider,
            )
            &&& !extra.contains_key("stage"@) ==> text_member(record, "stage"@) == Some(stage)
            &&& !extra.contains_key("elapsed_ms"@) ==> unsigned_member(record, "elapsed_ms"@)
                == Some(elapsed_ms)
            &&& !extra.contains_key("market"@) ==> match market {
                Some(market) => text_member(record, "market"@) == Some(checksummed(market@)),
                None => !record.contains_key("market"@),
            }
            &&& record.contains_key(name) && !extra.contains_key(name) ==> name == "ts_ms"@ || name
                == "provider"@ || name == "stage"@ || name == "elapsed_ms"@ || name == "market"@
        }),
{
    lemma_stage_names();
}

/// The record of a stage is read back from its line where what was added to it is.
pub proof fn law_stage_records_are_exact(
    provider: Seq<char>,
    ts_ms: u64,
    stage: Seq<char>,
    elapsed_ms: u64,
    market: Option<Address>,
    extra: Members,
)
    requires
        all_exact(extra),
    ensures
        all_exact(stage_members(provider, ts_ms, stage, elapsed_ms, market, extra)),
{
    let record = stage_members(provider, ts_ms, stage, elapsed_ms, market, extra);
    assert forall|name: Seq<char>| record.contains_key(name) implies (
    #[trigger] record[name] matches JsonValue::Other(text) ==> exact_text(text)) by {
        if extra.contains_key(name) {
            assert(record[name] == extra[name]);
        }
    }
}

} // verus!
