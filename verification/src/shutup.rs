//! Muting: whole groups at set times, and members whose messages run too long.

use std::collections::HashMap;
use vstd::prelude::*;

use crate::config::{AutoShutUpConfig, Config, LimitShutupConfig};

verus! {

broadcast use vstd::std_specs::hash::group_hash_axioms;

/// A timed job: at the cron time, mute (or unmute) a whole group.
#[derive(Clone, Debug, PartialEq, Eq)]
pub struct CronJob {
    pub cron: String,
    pub group_id: i64,
    /// True to mute the group, false to lift the mute.
    pub mute: bool,
}

/// For each timed mute, in order: a job that mutes the group at the start
/// time, then one that lifts the mute at the end time.
pub fn shutup_jobs(configs: &Vec<AutoShutUpConfig>) -> (jobs: Vec<CronJob>)
    requires
        2 * configs@.len() <= usize::MAX,
    ensures
        jobs@.len() == 2 * configs@.len(),
        forall|i: int| 0 <= i < configs@.len() ==> {
            let c = #[trigger] configs@[i];
            &&& jobs@[2 * i].cron@ == c.start@
            &&& jobs@[2 * i].group_id == c.group_id
            &&& jobs@[2 * i].mute
            &&& jobs@[2 * i + 1].cron@ == c.end@
            &&& jobs@[2 * i + 1].group_id == c.group_id
            &&& !jobs@[2 * i + 1].mute
        },
{
    let mut jobs: Vec<CronJob> = Vec::new();
    for i in 0..configs.len()
        invariant
            2 * configs@.len() <= usize::MAX,
            jobs@.len() == 2 * i,
            forall|k: int| 0 <= k < i ==> {
                let c = #[trigger] configs@[k];
                &&& jobs@[2 * k].cron@ == c.start@
                &&& jobs@[2 * k].group_id == c.group_id
                &&& jobs@[2 * k].mute
                &&& jobs@[2 * k + 1].cron@ == c.end@
                &&& jobs@[2 * k + 1].group_id == c.group_id
                &&& !jobs@[2 * k + 1].mute
            },
    {
        let c = &configs[i];
        let ghost before = jobs@;
        jobs.push(CronJob { cron: c.start.clone(), group_id: c.group_id, mute: true });
        jobs.push(CronJob { cron: c.end.clone(), group_id: c.group_id, mute: false });
        proof {
            assert forall|k: int| 0 <= k < i + 1 implies {
                let c = #[trigger] configs@[k];
                &&& jobs@[2 * k].cron@ == c.start@
                &&& jobs@[2 * k].group_id == c.group_id
                &&& jobs@[2 * k].mute
                &&& jobs@[2 * k + 1].cron@ == c.end@
                &&& jobs@[2 * k + 1].group_id == c.group_id
                &&& !jobs@[2 * k + 1].mute
            } by {
                if k < i {
                    assert(jobs@[2 * k] == before[2 * k]);
                    assert(jobs@[2 * k + 1] == before[2 * k + 1]);
                }
            }
        }
    }
    jobs
}

/// The timed jobs that the settings ask for; none without timed mutes.
pub fn config_shutup_jobs(config: &Config) -> (jobs: Vec<CronJob>)
    requires
        config.auto_shutup matches Some(v) ==> 2 * v@.len() <= usize::MAX,
    ensures
        config.auto_shutup is None ==> jobs@.len() == 0,
        config.auto_shutup matches Some(v) ==> jobs@.len() == 2 * v@.len() && forall|i: int|
            0 <= i < v@.len() ==> {
                let c = #[trigger] v@[i];
                &&& jobs@[2 * i].cron@ == c.start@
                &&& jobs@[2 * i].group_id == c.group_id
                &&& jobs@[2 * i].mute
                &&& jobs@[2 * i + 1].cron@ == c.end@
                &&& jobs@[2 * i + 1].group_id == c.group_id
                &&& !jobs@[2 * i + 1].mute
            },
{
    match &config.auto_shutup {
        Some(v) => shutup_jobs(v),
        None => Vec::new(),
    }
}

/// What to do with a member whose message is too long.
#[derive(Clone, Debug, PartialEq, Eq)]
pub struct LimitAction {
    /// How long to mute the member.
    pub seconds: usize,
    /// What to answer, if anything.
    pub reply: Option<String>,
}

/// In a group with a length limit, a message of at least `limit` characters
/// gets its sender muted for the group's time, and the group's answer if it
/// has one; nothing happens elsewhere or to a shorter message.
pub fn limit_check(configs: &HashMap<i64, LimitShutupConfig>, group_id: i64, text: &str) -> (r: Option<
    LimitAction,
>)
    ensures
        r is Some <==> (configs@.contains_key(group_id) && text@.len() >= configs@[group_id].limit),
        r matches Some(a) ==> {
            let c = configs@[group_id];
            &&& a.seconds == c.shutup_seconds
            &&& a.reply is Some == c.reply is Some
            &&& a.reply matches Some(t) ==> t@ == c.reply->0@
        },
{
    match configs.get(&group_id) {
        None => None,
        Some(c) => {
            if text.unicode_len() >= c.limit {
                let reply = match &c.reply {
                    Some(t) => Some(t.clone()),
                    None => None,
                };
                Some(LimitAction { seconds: c.shutup_seconds, reply })
            } else {
                None
            }
        },
    }
}

} // verus!
