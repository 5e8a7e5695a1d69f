//! The repeater: in the groups where it is switched on, the bot repeats a
//! message once enough members have sent it in a row.

use std::collections::HashMap;
use vstd::prelude::*;
use vstd::std_specs::iter::IteratorSpec;

use crate::message::{join2, join3, Segment, SegmentView, message_view};
use crate::text::{decimal, decimal_text};

verus! {

broadcast use vstd::std_specs::hash::group_hash_axioms;

/// The repeater's state.
pub struct RepeatState {
    /// The groups where the repeater is on, each with the last message text
    /// and how many times in a row it was sent.
    pub groups: HashMap<i64, (String, i32)>,
    /// How many times in a row a message must come before it is repeated.
    pub limit: i32,
    /// Whether the count starts again after a repeat, so that the message is
    /// repeated again after as many more.
    pub continuous: bool,
}

/// The groups' entries as plain values: group to (last text, count).
pub open spec fn entries_view(m: Map<i64, (String, i32)>) -> Map<i64, (Seq<char>, i32)> {
    m.map_values(|e: (String, i32)| (e.0@, e.1))
}

/// The entries once the repeater is on in group `g`: a group that was off
/// starts with no last text and a count of 0.
pub open spec fn started(v: Map<i64, (Seq<char>, i32)>, g: i64) -> Map<i64, (Seq<char>, i32)> {
    if v.contains_key(g) {
        v
    } else {
        v.insert(g, (Seq::<char>::empty(), 0))
    }
}

/// The entries once the repeater is off in group `g`.
pub open spec fn stopped(v: Map<i64, (Seq<char>, i32)>, g: i64) -> Map<i64, (Seq<char>, i32)> {
    v.remove(g)
}

/// The count after a message `text` comes to an entry: one more if it is the
/// entry's last text, else 1.
pub open spec fn next_count(entry: (Seq<char>, i32), text: Seq<char>) -> int {
    if entry.0 == text {
        entry.1 + 1
    } else {
        1
    }
}

/// What one message `text` does to a group's entry: the entry it leaves, and
/// whether the message is repeated now (when the count reaches `limit`; in
/// continuous mode the count then starts again from 0).
pub open spec fn message_step(entry: (Seq<char>, i32), text: Seq<char>, limit: i32, continuous: bool) -> ((
    Seq<char>,
    i32,
), bool) {
    let count = next_count(entry, text);
    let repeat = limit == count;
    ((text, if repeat && continuous { 0 } else { count as i32 }), repeat)
}

/// How the repeater handled a request to switch it on or off.
#[derive(Clone, Copy, Debug, PartialEq, Eq, Structural)]
pub enum RepeatOutcome {
    /// The request named no group and did not come from one.
    NoGroup,
    /// It was on already in the group the request came from.
    AlreadyHere,
    /// It was on already in the named group.
    AlreadyThere,
    /// It is now on in the group the request came from.
    StartedHere,
    /// It is now on in the named group.
    StartedThere,
    /// It is now off in the group the request came from.
    StoppedHere,
    /// It is now off in the named group.
    StoppedThere,
    /// It was not on in the group.
    NotRepeating,
}

/// The answer to a request, given the group it named and that group's name
/// if the bot could find it.
pub open spec fn outcome_text(outcome: RepeatOutcome, group_id: i64, name: Option<Seq<char>>) -> Seq<char> {
    let id = decimal(group_id as int);
    match outcome {
        RepeatOutcome::NoGroup => "必须在群中发送或指定群ID"@,
        RepeatOutcome::AlreadyHere => "已经在本群中复读"@,
        RepeatOutcome::AlreadyThere => match name {
            Some(n) => "已经在 "@ + n + "("@ + id + ") 中复读"@,
            None => "已经在 "@ + id + " 中复读"@,
        },
        RepeatOutcome::StartedHere => "开始在本群中复读"@,
        RepeatOutcome::StartedThere => match name {
            Some(n) => "开始在 "@ + n + "("@ + id + ") 中复读"@,
            None => "开始在 "@ + id + " 中复读"@,
        },
        RepeatOutcome::StoppedHere => "已停止本群中的复读"@,
        RepeatOutcome::StoppedThere => match name {
            Some(n) => "已停止在 "@ + n + "("@ + id + ") 中的复读"@,
            None => "并没有在 "@ + id + " 中复读"@,
        },
        RepeatOutcome::NotRepeating => "并没有在本群中复读"@,
    }
}

/// Whether the answer to an outcome names the group, so that its name is
/// worth looking up.
pub fn needs_group_name(outcome: RepeatOutcome) -> (r: bool)
    ensures
        r == (outcome == RepeatOutcome::AlreadyThere || outcome == RepeatOutcome::StartedThere
            || outcome == RepeatOutcome::StoppedThere),
{
    match outcome {
        RepeatOutcome::AlreadyThere | RepeatOutcome::StartedThere | RepeatOutcome::StoppedThere => true,
        _ => false,
    }
}

/// `"<name>(<id>)"` or `"<id>"`, then `tail`, after `head`.
fn named_group(head: &str, name: Option<&str>, id: &String, tail_named: &str, tail_plain: &str) -> (r: String)
    ensures
        r@ == match name {
            Some(n) => head@ + n@ + "("@ + id@ + tail_named@,
            None => head@ + id@ + tail_plain@,
        },
{
    match name {
        Some(n) => {
            let mut out = join3(head, n, "(");
            out.append(id.as_str());
            out.append(tail_named);
            out
        },
        None => join3(head, id.as_str(), tail_plain),
    }
}

/// The answer to a request to switch the repeater on or off.
pub fn outcome_reply(outcome: RepeatOutcome, group_id: i64, name: Option<&str>) -> (r: String)
    ensures
        r@ == outcome_text(outcome, group_id, match name {
            Some(n) => Some(n@),
            None => None,
        }),
{
    let id = decimal_text(group_id);
    match outcome {
        RepeatOutcome::NoGroup => String::from_str("必须在群中发送或指定群ID"),
        RepeatOutcome::AlreadyHere => String::from_str("已经在本群中复读"),
        RepeatOutcome::AlreadyThere => named_group("已经在 ", name, &id, ") 中复读", " 中复读"),
        RepeatOutcome::StartedHere => String::from_str("开始在本群中复读"),
        RepeatOutcome::StartedThere => named_group("开始在 ", name, &id, ") 中复读", " 中复读"),
        RepeatOutcome::StoppedHere => String::from_str("已停止本群中的复读"),
        RepeatOutcome::StoppedThere => match name {
            Some(_) => named_group("已停止在 ", name, &id, ") 中的复读", ""),
            None => join3("并没有在 ", id.as_str(), " 中复读"),
        },
        RepeatOutcome::NotRepeating => String::from_str("并没有在本群中复读"),
    }
}

impl RepeatState {
    /// Off everywhere; a message is repeated the second time in a row; no
    /// continuous repeating.
    pub fn new() -> (r: RepeatState)
        ensures
            r.groups@ == Map::<i64, (String, i32)>::empty(),
            r.limit == 2,
            !r.continuous,
    {
        RepeatState { groups: HashMap::new(), limit: 2, continuous: false }
    }

    /// Handles a message in a group: in a group where the repeater is on, and
    /// unless the message is a command, counts it (a new text starts the count
    /// again) and says whether to repeat it now, which is when the count
    /// reaches the limit; in continuous mode the count then starts again.
    pub fn on_group_message(&mut self, group_id: i64, text: String, is_command: bool) -> (repeat: bool)
        requires
            entries_view(old(self).groups@).contains_key(group_id) && !is_command ==> next_count(
                entries_view(old(self).groups@)[group_id],
                text@,
            ) <= i32::MAX,
        ensures
            final(self).limit == old(self).limit,
            final(self).continuous == old(self).continuous,
            ({
                let v = entries_view(old(self).groups@);
                if !v.contains_key(group_id) || is_command {
                    &&& entries_view(final(self).groups@) == v
                    &&& !repeat
                } else {
                    let (entry, r) = message_step(v[group_id], text@, old(self).limit, old(self).continuous);
                    &&& repeat == r
                    &&& entries_view(final(self).groups@) == v.insert(group_id, entry)
                }
            }),
    {
        if is_command {
            return false;
        }
        let ghost v = entries_view(self.groups@);
        let count = match self.groups.get(&group_id) {
            None => {
                return false;
            },
            Some(entry) => {
                if entry.0 == text {
                    entry.1 + 1
                } else {
                    1
                }
            },
        };
        let repeat = self.limit == count;
        let stored = if repeat && self.continuous { 0 } else { count };
        self.groups.insert(group_id, (text, stored));
        proof {
            assert(entries_view(self.groups@) =~= v.insert(group_id, (text@, stored)));
        }
        repeat
    }

    /// The answer to "is continuous repeating on?".
    pub fn continuous_reply(&self) -> (r: String)
        ensures
            r@ == "连续复读: "@ + (if self.continuous { "true"@ } else { "false"@ }),
    {
        if self.continuous {
            join2("连续复读: ", "true")
        } else {
            join2("连续复读: ", "false")
        }
    }

    /// Switches continuous repeating on or off, and answers so.
    pub fn set_continuous(&mut self, is_continuous: bool) -> (r: String)
        ensures
            final(self).continuous == is_continuous,
            final(self).groups@ == old(self).groups@,
            final(self).limit == old(self).limit,
            r@ == (if is_continuous { "已开启连续复读"@ } else { "已关闭连续复读"@ }),
    {
        self.continuous = is_continuous;
        if is_continuous {
            String::from_str("已开启连续复读")
        } else {
            String::from_str("已关闭连续复读")
        }
    }

    /// The answer to "what is the limit?".
    pub fn limit_reply(&self) -> (r: String)
        ensures
            r@ == "当前复读阈值为 "@ + decimal(self.limit as int),
    {
        join2("当前复读阈值为 ", decimal_text(self.limit as i64).as_str())
    }

    /// Sets a new limit, starts every group's count again from 0, and answers
    /// so.
    pub fn change_limit(&mut self, new_limit: i32) -> (r: String)
        ensures
            final(self).limit == new_limit,
            final(self).continuous == old(self).continuous,
            entries_view(final(self).groups@) == entries_view(old(self).groups@).map_values(
                |e: (Seq<char>, i32)| (e.0, 0i32),
            ),
            r@ == "复读阈值已更改为 "@ + decimal(new_limit as int),
    {
        self.limit = new_limit;
        let ghost v = entries_view(self.groups@);
        let keys = self.active_groups();
        for i in 0..keys.len()
            invariant
                keys@.no_duplicates(),
                forall|g: i64| keys@.contains(g) <==> v.contains_key(g),
                self.limit == new_limit,
                self.continuous == old(self).continuous,
                entries_view(self.groups@).dom() == v.dom(),
                forall|g: i64| #[trigger] v.contains_key(g) ==> entries_view(self.groups@)[g].0 == v[g].0,
                forall|j: int| 0 <= j < i ==> entries_view(self.groups@)[#[trigger] keys@[j]].1 == 0,
        {
            let g = keys[i];
            assert(keys@.contains(g));
            let text = match self.groups.get(&g) {
                Some(entry) => entry.0.clone(),
                None => String::new(),
            };
            let ghost before = entries_view(self.groups@);
            self.groups.insert(g, (text, 0));
            proof {
                assert(entries_view(self.groups@) =~= before.insert(g, (v[g].0, 0i32)));
                assert forall|j: int| 0 <= j < i + 1 implies entries_view(self.groups@)[#[trigger] keys@[j]].1 == 0 by {
                    if j < i {
                        assert(keys@[j] != g);
                    }
                }
            }
        }
        proof {
            assert forall|g: i64| #[trigger] v.contains_key(g) implies entries_view(self.groups@)[g].1 == 0 by {
                assert(keys@.contains(g));
                let j = choose|j: int| 0 <= j < keys@.len() && keys@[j] == g;
            }
            assert(entries_view(self.groups@) =~= v.map_values(|e: (Seq<char>, i32)| (e.0, 0i32)));
        }
        join2("复读阈值已更改为 ", decimal_text(new_limit as i64).as_str())
    }

    /// The groups where the repeater is on, each once.
    pub fn active_groups(&self) -> (r: Vec<i64>)
        ensures
            r@.no_duplicates(),
            forall|g: i64| r@.contains(g) <==> self.groups@.contains_key(g),
    {
        let mut out: Vec<i64> = Vec::new();
        let ghost seq = vstd::std_specs::hash::spec_keys_iter(&self.groups).remaining();
        for g in it: self.groups.keys()
            invariant
                it.seq() == seq,
                seq.no_duplicates(),
                seq.unref().to_set() == self.groups@.dom(),
                out@.len() == it.index(),
                forall|j: int| 0 <= j < it.index() ==> out@[j] == *(#[trigger] seq[j]),
        {
            out.push(*g);
        }
        proof {
            assert(out@ =~= seq.unref());
            assert forall|g: i64| out@.contains(g) <==> self.groups@.contains_key(g) by {
                assert(seq.unref().to_set().contains(g) == seq.unref().contains(g));
            }
            assert forall|a: int, b: int| 0 <= a < out@.len() && 0 <= b < out@.len() && a != b implies out@[a]
                != out@[b] by {
                assert(seq[a] != seq[b]);
            }
        }
        out
    }

    /// Switches the repeater on in the group a request came from.
    pub fn repeat_here(&mut self, this_group: Option<i64>) -> (outcome: RepeatOutcome)
        ensures
            final(self).limit == old(self).limit,
            final(self).continuous == old(self).continuous,
            match this_group {
                None => outcome == RepeatOutcome::NoGroup && entries_view(final(self).groups@) == entries_view(
                    old(self).groups@,
                ),
                Some(g) => {
                    &&& entries_view(final(self).groups@) == started(entries_view(old(self).groups@), g)
                    &&& outcome == (if old(self).groups@.contains_key(g) {
                        RepeatOutcome::AlreadyHere
                    } else {
                        RepeatOutcome::StartedHere
                    })
                },
            },
    {
        match this_group {
            None => RepeatOutcome::NoGroup,
            Some(g) => {
                if self.start(g) {
                    RepeatOutcome::StartedHere
                } else {
                    RepeatOutcome::AlreadyHere
                }
            },
        }
    }

    /// Switches the repeater on in a named group; a request from that very
    /// group is answered as one for "here".
    pub fn repeat_group(&mut self, group_id: i64, this_group: Option<i64>) -> (outcome: RepeatOutcome)
        ensures
            final(self).limit == old(self).limit,
            final(self).continuous == old(self).continuous,
            entries_view(final(self).groups@) == started(entries_view(old(self).groups@), group_id),
            outcome == (if old(self).groups@.contains_key(group_id) {
                if this_group == Some(group_id) {
                    RepeatOutcome::AlreadyHere
                } else {
                    RepeatOutcome::AlreadyThere
                }
            } else {
                if this_group == Some(group_id) {
                    RepeatOutcome::StartedHere
                } else {
                    RepeatOutcome::StartedThere
                }
            }),
    {
        let here = match this_group {
            Some(t) => t == group_id,
            None => false,
        };
        if self.start(group_id) {
            if here {
                RepeatOutcome::StartedHere
            } else {
                RepeatOutcome::StartedThere
            }
        } else {
            if here {
                RepeatOutcome::AlreadyHere
            } else {
                RepeatOutcome::AlreadyThere
            }
        }
    }

    /// Switches the repeater off in the group a request came from.
    pub fn cancel_here(&mut self, this_group: Option<i64>) -> (outcome: RepeatOutcome)
        ensures
            final(self).limit == old(self).limit,
            final(self).continuous == old(self).continuous,
            match this_group {
                None => outcome == RepeatOutcome::NoGroup && entries_view(final(self).groups@) == entries_view(
                    old(self).groups@,
                ),
                Some(g) => {
                    &&& entries_view(final(self).groups@) == stopped(entries_view(old(self).groups@), g)
                    &&& outcome == (if old(self).groups@.contains_key(g) {
                        RepeatOutcome::StoppedHere
                    } else {
                        RepeatOutcome::NotRepeating
                    })
                },
            },
    {
        match this_group {
            None => RepeatOutcome::NoGroup,
            Some(g) => {
                if self.stop(g) {
                    RepeatOutcome::StoppedHere
                } else {
                    RepeatOutcome::NotRepeating
                }
            },
        }
    }

    /// Switches the repeater off in a named group; a request from that very
    /// group is answered as one for "here".
    pub fn cancel_group(&mut self, group_id: i64, this_group: Option<i64>) -> (outcome: RepeatOutcome)
        ensures
            final(self).limit == old(self).limit,
            final(self).continuous == old(self).continuous,
            entries_view(final(self).groups@) == stopped(entries_view(old(self).groups@), group_id),
            outcome == (if old(self).groups@.contains_key(group_id) {
                if this_group == Some(group_id) {
                    RepeatOutcome::StoppedHere
                } else {
                    RepeatOutcome::StoppedThere
                }
            } else {
                RepeatOutcome::NotRepeating
            }),
    {
        let here = match this_group {
            Some(t) => t == group_id,
            None => false,
        };
        if self.stop(group_id) {
            if here {
                RepeatOutcome::StoppedHere
            } else {
                RepeatOutcome::StoppedThere
            }
        } else {
            RepeatOutcome::NotRepeating
        }
    }

    fn start(&mut self, g: i64) -> (added: bool)
        ensures
            final(self).limit == old(self).limit,
            final(self).continuous == old(self).continuous,
            added == !old(self).groups@.contains_key(g),
            entries_view(final(self).groups@) == started(entries_view(old(self).groups@), g),
    {
        if self.groups.contains_key(&g) {
            false
        } else {
            let ghost v = entries_view(self.groups@);
            self.groups.insert(g, (String::new(), 0));
            proof {
                assert(entries_view(self.groups@) =~= v.insert(g, (Seq::<char>::empty(), 0i32)));
            }
            true
        }
    }

    fn stop(&mut self, g: i64) -> (removed: bool)
        ensures
            final(self).limit == old(self).limit,
            final(self).continuous == old(self).continuous,
            removed == old(self).groups@.contains_key(g),
            entries_view(final(self).groups@) == stopped(entries_view(old(self).groups@), g),
    {
        let ghost v = entries_view(self.groups@);
        let removed = self.groups.remove(&g).is_some();
        proof {
            assert(entries_view(self.groups@) =~= v.remove(g));
        }
        removed
    }
}

/// The answer to "where is the repeater on?", given those groups, each with
/// its name if the bot could find it: a header line, then one line per
/// group; a single sentence when there is none.
pub open spec fn list_message(groups: Seq<(i64, Option<String>)>) -> Seq<SegmentView> {
    if groups.len() == 0 {
        seq![SegmentView::Text("当前不在任何群里复读"@)]
    } else {
        seq![SegmentView::Text("当前正在以下群里复读:"@)] + groups.map_values(
            |e: (i64, Option<String>)| SegmentView::Text(
                match e.1 {
                    Some(n) => "\n"@ + n@ + "("@ + decimal(e.0 as int) + ")"@,
                    None => "\n"@ + decimal(e.0 as int),
                },
            ),
        )
    }
}

/// The answer to "where is the repeater on?".
pub fn list_reply(groups: &Vec<(i64, Option<String>)>) -> (m: Vec<Segment>)
    ensures
        message_view(m@) == list_message(groups@),
{
    let mut m: Vec<Segment> = Vec::new();
    if groups.len() == 0 {
        m.push(Segment::Text(String::from_str("当前不在任何群里复读")));
        proof {
            assert(message_view(m@) =~= list_message(groups@));
        }
        return m;
    }
    m.push(Segment::Text(String::from_str("当前正在以下群里复读:")));
    for i in 0..groups.len()
        invariant
            m@.len() == i + 1,
            m@[0]@ == SegmentView::Text("当前正在以下群里复读:"@),
            forall|j: int| 0 <= j < i ==> (#[trigger] m@[j + 1])@ == SegmentView::Text(
                match groups@[j].1 {
                    Some(n) => "\n"@ + n@ + "("@ + decimal(groups@[j].0 as int) + ")"@,
                    None => "\n"@ + decimal(groups@[j].0 as int),
                },
            ),
    {
        let id = decimal_text(groups[i].0);
        let line = match &groups[i].1 {
            Some(n) => {
                let mut t = join3("\n", n.as_str(), "(");
                t.append(id.as_str());
                t.append(")");
                t
            },
            None => join2("\n", id.as_str()),
        };
        m.push(Segment::Text(line));
    }
    proof {
        let expected = list_message(groups@);
        assert(expected.len() == m@.len());
        assert forall|k: int| 0 <= k < m@.len() implies message_view(m@)[k] == expected[k] by {
            if k > 0 {
                assert(m@[(k - 1) + 1]@ == expected[k]);
            }
        }
        assert(message_view(m@) =~= expected);
    }
    m
}

/// `n` messages of the same `text` in a row, from `entry`: the entry they
/// leave and how many of them were repeated.
pub open spec fn feed(entry: (Seq<char>, i32), text: Seq<char>, limit: i32, continuous: bool, n: nat) -> ((
    Seq<char>,
    i32,
), nat)
    decreases n,
{
    if n == 0 {
        (entry, 0)
    } else {
        let (e, k) = feed(entry, text, limit, continuous, (n - 1) as nat);
        let (e2, r) = message_step(e, text, limit, continuous);
        (e2, if r { k + 1 } else { k })
    }
}

/// In continuous mode, a run of `n` messages of a new text is repeated
/// once for every `limit` messages: `n / limit` times.
pub proof fn law_continuous_repeats_every_limit(entry: (Seq<char>, i32), text: Seq<char>, limit: i32, n: nat)
    requires
        entry.0 != text,
        1 <= limit,
    ensures
        feed(entry, text, limit, true, n).1 == n / (limit as nat),
        n > 0 ==> feed(entry, text, limit, true, n).0 == (text, (n % (limit as nat)) as i32),
    decreases n,
{
    let l = limit as nat;
    if n > 0 {
        law_continuous_repeats_every_limit(entry, text, limit, (n - 1) as nat);
        let m = (n - 1) as nat;
        let (e, k) = feed(entry, text, limit, true, m);
        if m == 0 {
            assert(e == entry);
            assert(next_count(e, text) == 1);
            if l == 1 {
                assert(n / l == 1 && n % l == 0);
            } else {
                assert(n / l == 0 && n % l == 1) by (nonlinear_arith)
                    requires n == 1, l > 1;
            }
        } else {
            assert(next_count(e, text) == m % l + 1);
            assert(m % l < l) by (nonlinear_arith)
                requires l >= 1;
            if m % l + 1 == l {
                assert(n % l == 0 && n / l == m / l + 1) by (nonlinear_arith)
                    requires n == m + 1, m % l + 1 == l, l >= 1;
            } else {
                assert(n % l == m % l + 1 && n / l == m / l) by (nonlinear_arith)
                    requires n == m + 1, m % l + 1 < l, l >= 1;
            }
        }
    }
}

/// Without continuous mode, a run of messages of a new text is repeated
/// exactly once, at the `limit`-th message, however long the run is.
pub proof fn law_single_repeat_without_continuous(entry: (Seq<char>, i32), text: Seq<char>, limit: i32, n: nat)
    requires
        entry.0 != text,
        1 <= limit,
        n < i32::MAX,
    ensures
        feed(entry, text, limit, false, n).1 == (if n >= limit { 1nat } else { 0nat }),
        n > 0 ==> feed(entry, text, limit, false, n).0 == (text, n as i32),
    decreases n,
{
    if n > 0 {
        law_single_repeat_without_continuous(entry, text, limit, (n - 1) as nat);
    }
}

/// Switching the repeater on in a group where it was off, then off again,
/// leaves every other group as it was.
pub proof fn law_start_then_stop_restores(v: Map<i64, (Seq<char>, i32)>, g: i64)
    requires
        !v.contains_key(g),
    ensures
        stopped(started(v, g), g) == v,
{
    assert(stopped(started(v, g), g) =~= v);
}

/// Switching the repeater on where it is on already changes nothing, and
/// so does switching it off where it is off.
pub proof fn law_start_and_stop_are_idempotent(v: Map<i64, (Seq<char>, i32)>, g: i64)
    ensures
        started(started(v, g), g) == started(v, g),
        stopped(stopped(v, g), g) == stopped(v, g),
        v.contains_key(g) ==> started(v, g) == v,
        !v.contains_key(g) ==> stopped(v, g) == v,
{
    assert(stopped(stopped(v, g), g) =~= stopped(v, g));
    if !v.contains_key(g) {
        assert(stopped(v, g) =~= v);
    }
}

} // verus!
