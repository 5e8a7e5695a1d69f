//! Live-stream reminders: which rooms to poll, what changed since the last
//! poll, and who hears of it.

use std::collections::{HashMap, HashSet};
use vstd::prelude::*;
use vstd::std_specs::iter::IteratorSpec;

use crate::config::LiveConfig;
use crate::message::{copy_message, join2, join3, message_view, Segment, SegmentView};
use crate::text::{decimal, decimal_text, parse_i64, parse_i64_text};

verus! {

broadcast use vstd::std_specs::hash::group_hash_axioms;

/// Every room that some group of `reminder` follows.
pub open spec fn followed_rooms(reminder: Map<i64, HashSet<i64>>) -> Set<i64> {
    Set::new(|r: i64| exists|g: i64| #[trigger] reminder.contains_key(g) && reminder[g]@.contains(r))
}

/// The groups to tell about live changes, and the rooms they follow.
pub struct LiveReminder {
    /// Group id to the rooms that the group follows.
    pub reminder: HashMap<i64, HashSet<i64>>,
    /// Every room that some group follows.
    pub room_ids: HashSet<i64>,
}

impl LiveReminder {
    /// Takes the groups' rooms from the settings and gathers every room that
    /// some group follows.
    pub fn new(live_config: LiveConfig) -> (r: LiveReminder)
        ensures
            r.reminder@ == live_config.reminder@,
            r.room_ids@ == followed_rooms(live_config.reminder@),
    {
        let mut rooms: HashSet<i64> = HashSet::new();
        let ghost reminder = live_config.reminder@;
        let ghost seq = vstd::std_specs::hash::spec_hash_map_iter(&live_config.reminder).remaining();
        for entry in it: live_config.reminder.iter()
            invariant
                reminder == live_config.reminder@,
                it.seq() == seq,
                forall|r: i64| #[trigger] rooms@.contains(r) <==> exists|j: int|
                    0 <= j < it.index() && (#[trigger] it.seq()[j]).1@.contains(r),
        {
            let (_, room_ids) = entry;
            let ghost seq2 = vstd::std_specs::hash::spec_hash_keys_iter(room_ids).remaining();
            for room_id in it2: room_ids.iter()
                invariant
                    it2.seq() == seq2,
                    forall|r: i64| #[trigger] rooms@.contains(r) <==> (exists|j: int|
                        0 <= j < it.index() && (#[trigger] it.seq()[j]).1@.contains(r))
                        || exists|k: int| 0 <= k < it2.index() && *it2.seq()[k] == r,
            {
                rooms.insert(*room_id);
            }
            proof {
                assert forall|r: i64| room_ids@.contains(r) implies exists|k: int| 0 <= k < seq2.len() && *seq2[k] == r by {
                    assert(seq2.unref().to_set().contains(r));
                    let k = choose|k: int| 0 <= k < seq2.unref().len() && seq2.unref()[k] == r;
                    assert(*seq2[k] == r);
                }
                assert forall|k: int| 0 <= k < seq2.len() implies room_ids@.contains(*seq2[k]) by {
                    assert(seq2.unref()[k] == *seq2[k]);
                    assert(seq2.unref().contains(*seq2[k]));
                    assert(seq2.unref().to_set().contains(*seq2[k]));
                }
            }
        }
        proof {
            assert forall|r: i64| rooms@.contains(r) <==> followed_rooms(reminder).contains(r) by {
                if rooms@.contains(r) {
                    let j = choose|j: int| 0 <= j < seq.len() && (#[trigger] seq[j]).1@.contains(r);
                    let g = *seq[j].0;
                    assert(reminder.contains_key(g) && reminder[g] == *seq[j].1);
                }
                if followed_rooms(reminder).contains(r) {
                    let g = choose|g: i64| #[trigger] reminder.contains_key(g) && reminder[g]@.contains(r);
                    assert(seq.contains((&g, &reminder[g])));
                    let j = choose|j: int| 0 <= j < seq.len() && seq[j] == (&g, &reminder[g]);
                    assert(seq[j].1@.contains(r));
                }
            }
            assert(rooms@ =~= followed_rooms(reminder));
        }
        LiveReminder { reminder: live_config.reminder, room_ids: rooms }
    }
}

/// The room-to-status map that a list of pairs holds; a later pair for the
/// same room wins.
pub open spec fn pairs_map(s: Seq<(String, i32)>) -> Map<Seq<char>, i32>
    decreases s.len(),
{
    if s.len() == 0 {
        Map::empty()
    } else {
        pairs_map(s.drop_last()).insert(s.last().0@, s.last().1)
    }
}

/// No room occurs twice in the list.
pub open spec fn distinct_rooms(s: Seq<(String, i32)>) -> bool {
    forall|i: int, j: int| 0 <= i < j < s.len() ==> (#[trigger] s[i]).0@ != (#[trigger] s[j]).0@
}

proof fn lemma_distinct_drop_last(s: Seq<(String, i32)>)
    requires
        distinct_rooms(s),
        s.len() > 0,
    ensures
        distinct_rooms(s.drop_last()),
{
    let t = s.drop_last();
    assert forall|i: int, j: int| 0 <= i < j < t.len() implies (#[trigger] t[i]).0@ != (#[trigger] t[j]).0@ by {
        assert(t[i] == s[i] && t[j] == s[j]);
    }
}

proof fn lemma_pairs_map_lookup(s: Seq<(String, i32)>, k: Seq<char>)
    requires
        distinct_rooms(s),
    ensures
        pairs_map(s).contains_key(k) <==> exists|i: int| 0 <= i < s.len() && (#[trigger] s[i]).0@ == k,
        forall|i: int| 0 <= i < s.len() && (#[trigger] s[i]).0@ == k ==> pairs_map(s)[k] == s[i].1,
    decreases s.len(),
{
    if s.len() > 0 {
        let t = s.drop_last();
        let n = s.len() - 1;
        lemma_distinct_drop_last(s);
        lemma_pairs_map_lookup(t, k);
        assert(pairs_map(s) == pairs_map(t).insert(s[n].0@, s[n].1));
        if pairs_map(s).contains_key(k) {
            if s[n].0@ != k {
                let i = choose|i: int| 0 <= i < t.len() && (#[trigger] t[i]).0@ == k;
                assert(s[i] == t[i]);
            }
            assert(exists|i: int| 0 <= i < s.len() && (#[trigger] s[i]).0@ == k);
        }
        if exists|i: int| 0 <= i < s.len() && (#[trigger] s[i]).0@ == k {
            let i = choose|i: int| 0 <= i < s.len() && (#[trigger] s[i]).0@ == k;
            if i < n {
                assert(t[i] == s[i]);
            }
        }
        assert forall|i: int| 0 <= i < s.len() && (#[trigger] s[i]).0@ == k implies pairs_map(s)[k] == s[i].1 by {
            if i < n {
                assert(t[i] == s[i]);
                assert(s[i].0@ != s[n].0@);
            }
        }
    }
}

proof fn lemma_pairs_map_update(s: Seq<(String, i32)>, i: int, entry: (String, i32))
    requires
        distinct_rooms(s),
        0 <= i < s.len(),
        s[i].0@ == entry.0@,
    ensures
        distinct_rooms(s.update(i, entry)),
        pairs_map(s.update(i, entry)) == pairs_map(s).insert(entry.0@, entry.1),
{
    let u = s.update(i, entry);
    assert forall|a: int, b: int| 0 <= a < b < u.len() implies (#[trigger] u[a]).0@ != (#[trigger] u[b]).0@ by {
        assert(s[a].0@ != s[b].0@);
    }
    assert forall|k: Seq<char>| #![trigger pairs_map(u).contains_key(k)]
        (pairs_map(u).contains_key(k) == pairs_map(s).insert(entry.0@, entry.1).contains_key(k))
        && (pairs_map(u).contains_key(k) ==> pairs_map(u)[k] == pairs_map(s).insert(entry.0@, entry.1)[k]) by {
        lemma_pairs_map_lookup(u, k);
        lemma_pairs_map_lookup(s, k);
        if k == entry.0@ {
            assert(u[i].0@ == k);
        } else {
            if pairs_map(s).contains_key(k) {
                let j = choose|j: int| 0 <= j < s.len() && (#[trigger] s[j]).0@ == k;
                assert(u[j] == s[j]);
            }
            if pairs_map(u).contains_key(k) {
                let j = choose|j: int| 0 <= j < u.len() && (#[trigger] u[j]).0@ == k;
                assert(u[j] == s[j]);
            }
        }
    }
    assert(pairs_map(u) =~= pairs_map(s).insert(entry.0@, entry.1));
}

/// The last live status seen of each room, by the room's id as the status
/// service writes it.
pub struct LiveState {
    rooms: Vec<(String, i32)>,
}

impl View for LiveState {
    type V = Map<Seq<char>, i32>;

    closed spec fn view(&self) -> Map<Seq<char>, i32> {
        pairs_map(self.rooms@)
    }
}

/// What a new status of a room means, against the last one seen.
#[derive(Clone, Copy, Debug, PartialEq, Eq, Structural)]
pub enum LiveChange {
    /// The room had not been seen: its status is only recorded.
    FirstSeen,
    /// The status is the one seen last.
    Unchanged,
    /// The stream ended (status 0).
    WentOffline,
    /// The stream began (status 1).
    WentLive,
    /// The room went over to replays (status 2).
    WentRerun,
}

/// What `status` means for a room whose last seen status is `last`.
pub open spec fn live_change(last: Option<i32>, status: i32) -> LiveChange {
    match last {
        None => LiveChange::FirstSeen,
        Some(l) => if l == status {
            LiveChange::Unchanged
        } else if status == 0 {
            LiveChange::WentOffline
        } else if status == 1 {
            LiveChange::WentLive
        } else {
            LiveChange::WentRerun
        },
    }
}

/// The last status seen of a room, if any.
pub open spec fn last_seen(last: Map<Seq<char>, i32>, room_id: Seq<char>) -> Option<i32> {
    if last.contains_key(room_id) {
        Some(last[room_id])
    } else {
        None
    }
}

/// The status service only knows the statuses 0 (offline), 1 (live) and
/// 2 (replays); a status that changed to anything else is no valid answer.
pub open spec fn acceptable_status(last: Map<Seq<char>, i32>, room_id: Seq<char>, status: i32) -> bool {
    last.contains_key(room_id) && last[room_id] != status ==> 0 <= status <= 2
}

impl LiveState {
    /// The state's own consistency: no room is listed twice.
    #[verifier::type_invariant]
    spec fn wf(self) -> bool {
        distinct_rooms(self.rooms@)
    }

    /// No room seen yet.
    pub fn new() -> (r: LiveState)
        ensures
            r@ == Map::<Seq<char>, i32>::empty(),
    {
        LiveState { rooms: Vec::new() }
    }

    fn position(&self, room_id: &String) -> (r: Option<usize>)
        ensures
            match r {
                Some(i) => i < self.rooms@.len() && self.rooms@[i as int].0@ == room_id@,
                None => forall|i: int| 0 <= i < self.rooms@.len() ==> (#[trigger] self.rooms@[i]).0@ != room_id@,
            },
    {
        for i in 0..self.rooms.len()
            invariant
                forall|j: int| 0 <= j < i ==> (#[trigger] self.rooms@[j]).0@ != room_id@,
        {
            if self.rooms[i].0 == *room_id {
                return Some(i);
            }
        }
        None
    }

    /// The last status seen of a room, if it was seen.
    pub fn last_status(&self, room_id: &String) -> (r: Option<i32>)
        ensures
            r == last_seen(self@, room_id@),
    {
        proof {
            use_type_invariant(self);
            lemma_pairs_map_lookup(self.rooms@, room_id@);
        }
        match self.position(room_id) {
            Some(i) => Some(self.rooms[i].1),
            None => None,
        }
    }

    /// Records the status of a room that a poll reports and says what it
    /// means against the last status seen of the room.
    pub fn observe(&mut self, room_id: String, status: i32) -> (change: LiveChange)
        requires
            acceptable_status(old(self)@, room_id@, status),
        ensures
            final(self)@ == old(self)@.insert(room_id@, status),
            change == live_change(last_seen(old(self)@, room_id@), status),
    {
        let ghost old_rooms = self.rooms@;
        proof {
            use_type_invariant(&*self);
            lemma_pairs_map_lookup(old_rooms, room_id@);
        }
        let found = self.position(&room_id);
        let mut rooms: Vec<(String, i32)> = Vec::new();
        std::mem::swap(&mut rooms, &mut self.rooms);
        let change = match found {
            Some(i) => {
                let last = rooms[i].1;
                let ghost entry = (room_id, status);
                proof {
                    lemma_pairs_map_update(old_rooms, i as int, entry);
                }
                rooms.set(i, (room_id, status));
                if last == status {
                    LiveChange::Unchanged
                } else if status == 0 {
                    LiveChange::WentOffline
                } else if status == 1 {
                    LiveChange::WentLive
                } else {
                    LiveChange::WentRerun
                }
            },
            None => {
                rooms.push((room_id, status));
                proof {
                    assert forall|a: int, b: int| 0 <= a < b < rooms@.len() implies (#[trigger] rooms@[a]).0@
                        != (#[trigger] rooms@[b]).0@ by {
                        assert(a < old_rooms.len() ==> rooms@[a] == old_rooms[a]);
                        assert(b < old_rooms.len() ==> rooms@[b] == old_rooms[b]);
                    }
                    assert(rooms@.drop_last() =~= old_rooms);
                }
                LiveChange::FirstSeen
            },
        };
        self.rooms = rooms;
        change
    }
}

/// What the status service reports of one live room.
pub struct Room {
    pub live_url: String,
    pub title: String,
    pub area_name: String,
    pub uname: String,
    pub cover: String,
    /// 0: offline; 1: live; 2: showing replays.
    pub live_status: i32,
}

/// The text sent when a stream ends: `"<streamer> 下播了"`.
pub open spec fn offline_text(room: &Room) -> Seq<char> {
    room.uname@ + " 下播了"@
}

/// The message sent when a stream begins: the streamer and "is live", the
/// area, the cover image, the title and the room's URL.
pub open spec fn live_message(room: &Room) -> Seq<SegmentView> {
    seq![
        SegmentView::Text(room.uname@ + " 正在直播\n"@),
        SegmentView::Text(room.area_name@ + "\n"@),
        SegmentView::Image(room.cover@),
        SegmentView::Text(room.title@ + "\n"@),
        SegmentView::Text(room.live_url@),
    ]
}

/// What the followers of a room hear of a change, if anything.
pub open spec fn notice_for(room: &Room, change: LiveChange) -> Option<Seq<SegmentView>> {
    match change {
        LiveChange::WentOffline => Some(seq![SegmentView::Text(offline_text(room))]),
        LiveChange::WentLive => Some(live_message(room)),
        _ => None,
    }
}

/// The room number that a room id text names: the number it reads as, or 0
/// when it reads as none.
pub open spec fn room_number(room_id: Seq<char>) -> i64 {
    match parse_i64(room_id) {
        Ok(v) => v,
        Err(_) => 0,
    }
}

/// The word for a status in an answer to a query.
pub open spec fn status_word(status: i32) -> Seq<char> {
    if status == 0 {
        "已下播"@
    } else if status == 1 {
        "正在直播"@
    } else {
        "轮播中"@
    }
}

/// The answer to a query of one room: the streamer and the status, the
/// area, the cover image, the title and the room's URL.
pub open spec fn query_message(room: &Room) -> Seq<SegmentView> {
    seq![
        SegmentView::Text(room.uname@ + " "@ + status_word(room.live_status) + "\n"@),
        SegmentView::Text(room.area_name@ + "\n"@),
        SegmentView::Image(room.cover@),
        SegmentView::Text(room.title@ + "\n"@),
        SegmentView::Text(room.live_url@),
    ]
}

/// The message sent to the followers of a room when its stream begins.
pub fn live_notice(room: &Room) -> (m: Vec<Segment>)
    ensures
        message_view(m@) == live_message(room),
{
    let mut m: Vec<Segment> = Vec::new();
    m.push(Segment::Text(join2(room.uname.as_str(), " 正在直播\n")));
    m.push(Segment::Text(join2(room.area_name.as_str(), "\n")));
    m.push(Segment::Image(room.cover.clone()));
    m.push(Segment::Text(join2(room.title.as_str(), "\n")));
    m.push(Segment::Text(room.live_url.clone()));
    proof {
        assert(message_view(m@) =~= live_message(room));
    }
    m
}

/// The text sent to the followers of a room when its stream ends.
pub fn offline_notice(room: &Room) -> (t: String)
    ensures
        t@ == offline_text(room),
{
    join2(room.uname.as_str(), " 下播了")
}

/// The answer to a query of one room.
pub fn live_query_reply(room: &Room) -> (m: Vec<Segment>)
    requires
        0 <= room.live_status <= 2,
    ensures
        message_view(m@) == query_message(room),
{
    let word = if room.live_status == 0 {
        "已下播"
    } else if room.live_status == 1 {
        "正在直播"
    } else {
        "轮播中"
    };
    let mut m: Vec<Segment> = Vec::new();
    m.push(Segment::Text(join3(room.uname.as_str(), " ", word).concat("\n")));
    m.push(Segment::Text(join2(room.area_name.as_str(), "\n")));
    m.push(Segment::Image(room.cover.clone()));
    m.push(Segment::Text(join2(room.title.as_str(), "\n")));
    m.push(Segment::Text(room.live_url.clone()));
    proof {
        assert(message_view(m@) =~= query_message(room));
    }
    m
}

/// The answer when the status service could not be asked.
pub fn live_query_error(error: &str) -> (t: String)
    ensures
        t@ == "can not get live status: "@ + error@,
{
    join2("can not get live status: ", error)
}

/// The last statuses seen once a poll has reported `rooms`, one after the
/// other, on top of `last`.
pub open spec fn poll_state(last: Map<Seq<char>, i32>, rooms: Seq<(String, Room)>) -> Map<Seq<char>, i32>
    decreases rooms.len(),
{
    if rooms.len() == 0 {
        last
    } else {
        poll_state(last, rooms.drop_last()).insert(rooms.last().0@, rooms.last().1.live_status)
    }
}

/// Each report of a poll is acceptable against the statuses seen before it.
pub open spec fn poll_acceptable(last: Map<Seq<char>, i32>, rooms: Seq<(String, Room)>) -> bool
    decreases rooms.len(),
{
    rooms.len() == 0 || (poll_acceptable(last, rooms.drop_last()) && acceptable_status(
        poll_state(last, rooms.drop_last()),
        rooms.last().0@,
        rooms.last().1.live_status,
    ))
}

/// What the `i`-th report of a poll means, against the statuses seen
/// before it.
pub open spec fn poll_change(last: Map<Seq<char>, i32>, rooms: Seq<(String, Room)>, i: int) -> LiveChange {
    live_change(last_seen(poll_state(last, rooms.take(i)), rooms[i].0@), rooms[i].1.live_status)
}

/// A poll reports each room at most once.
pub open spec fn distinct_reports(rooms: Seq<(String, Room)>) -> bool {
    forall|i: int, j: int| 0 <= i < j < rooms.len() ==> (#[trigger] rooms[i]).0@ != (#[trigger] rooms[j]).0@
}

proof fn lemma_poll_acceptable_prefix(last: Map<Seq<char>, i32>, rooms: Seq<(String, Room)>, k: int)
    requires
        poll_acceptable(last, rooms),
        0 <= k <= rooms.len(),
    ensures
        poll_acceptable(last, rooms.take(k)),
    decreases rooms.len(),
{
    if k == rooms.len() {
        assert(rooms.take(k) =~= rooms);
    } else {
        lemma_poll_acceptable_prefix(last, rooms.drop_last(), k);
        assert(rooms.drop_last().take(k) =~= rooms.take(k));
    }
}

proof fn lemma_poll_state_unreported(last: Map<Seq<char>, i32>, rooms: Seq<(String, Room)>, k: Seq<char>)
    requires
        forall|i: int| 0 <= i < rooms.len() ==> (#[trigger] rooms[i]).0@ != k,
    ensures
        poll_state(last, rooms).contains_key(k) == last.contains_key(k),
        last.contains_key(k) ==> poll_state(last, rooms)[k] == last[k],
        last_seen(poll_state(last, rooms), k) == last_seen(last, k),
    decreases rooms.len(),
{
    if rooms.len() > 0 {
        let t = rooms.drop_last();
        assert forall|i: int| 0 <= i < t.len() implies (#[trigger] t[i]).0@ != k by {
            assert(t[i] == rooms[i]);
        }
        lemma_poll_state_unreported(last, t, k);
        assert(rooms.last().0@ != k);
    }
}

proof fn lemma_poll_state_reported(last: Map<Seq<char>, i32>, rooms: Seq<(String, Room)>, i: int)
    requires
        distinct_reports(rooms),
        0 <= i < rooms.len(),
    ensures
        poll_state(last, rooms).contains_key(rooms[i].0@),
        poll_state(last, rooms)[rooms[i].0@] == rooms[i].1.live_status,
    decreases rooms.len(),
{
    let t = rooms.drop_last();
    if i < rooms.len() - 1 {
        assert forall|a: int, b: int| 0 <= a < b < t.len() implies (#[trigger] t[a]).0@ != (#[trigger] t[b]).0@ by {
            assert(t[a] == rooms[a] && t[b] == rooms[b]);
        }
        lemma_poll_state_reported(last, t, i);
        assert(t[i] == rooms[i]);
        assert(rooms[i].0@ != rooms[rooms.len() - 1].0@);
    }
}

proof fn lemma_poll_state_settled(last: Map<Seq<char>, i32>, rooms: Seq<(String, Room)>)
    requires
        forall|i: int| 0 <= i < rooms.len() ==> last.contains_key((#[trigger] rooms[i]).0@) && last[rooms[i].0@]
            == rooms[i].1.live_status,
    ensures
        poll_state(last, rooms) == last,
        poll_acceptable(last, rooms),
    decreases rooms.len(),
{
    if rooms.len() > 0 {
        let t = rooms.drop_last();
        assert forall|i: int| 0 <= i < t.len() implies last.contains_key((#[trigger] t[i]).0@) && last[t[i].0@]
            == t[i].1.live_status by {
            assert(t[i] == rooms[i]);
        }
        lemma_poll_state_settled(last, t);
        let n = rooms.len() - 1;
        assert(rooms.last() == rooms[n]);
        assert(last.insert(rooms[n].0@, rooms[n].1.live_status) =~= last);
    }
}

/// `r` is what the followers of a room hear of `change`: nothing when the
/// change is not announced; else one message per group that follows the
/// room that the id text names (0 when it names none), each group once, each
/// message the notice.
pub open spec fn announced(
    reminder: Map<i64, HashSet<i64>>,
    r: Seq<(i64, Vec<Segment>)>,
    room_id: Seq<char>,
    room: &Room,
    change: LiveChange,
) -> bool {
    match notice_for(room, change) {
        None => r.len() == 0,
        Some(msg) => {
            &&& r.map_values(|n: (i64, Vec<Segment>)| n.0).no_duplicates()
            &&& forall|g: i64| r.map_values(|n: (i64, Vec<Segment>)| n.0).contains(g) <==> (
                reminder.contains_key(g) && reminder[g]@.contains(room_number(room_id)))
            &&& forall|i: int| 0 <= i < r.len() ==> message_view((#[trigger] r[i]).1@) == msg
        },
    }
}

impl LiveReminder {
    /// The groups that follow `room`, each once.
    pub fn groups_following(&self, room: i64) -> (r: Vec<i64>)
        ensures
            r@.no_duplicates(),
            forall|g: i64| r@.contains(g) <==> (self.reminder@.contains_key(g) && self.reminder@[g]@.contains(room)),
    {
        let mut out: Vec<i64> = Vec::new();
        let ghost m = self.reminder@;
        let ghost seq = vstd::std_specs::hash::spec_hash_map_iter(&self.reminder).remaining();
        for entry in it: self.reminder.iter()
            invariant
                m == self.reminder@,
                it.seq() == seq,
                seq.no_duplicates(),
                forall|i: int| #![trigger seq[i]] 0 <= i < seq.len() ==> m.contains_key(*seq[i].0) && m[*seq[i].0] == *seq[i].1,
                out@.no_duplicates(),
                forall|g: i64| out@.contains(g) <==> exists|j: int| 0 <= j < it.index()
                    && *(#[trigger] seq[j]).0 == g && seq[j].1@.contains(room),
        {
            let ghost idx = it.index();
            let ghost before = out@;
            assert(entry == seq[idx]);
            let (g, rooms) = entry;
            if rooms.contains(&room) {
                proof {
                    if out@.contains(*g) {
                        let j = choose|j: int| 0 <= j < idx && *(#[trigger] seq[j]).0 == *g && seq[j].1@.contains(room);
                        assert(seq[j] == seq[idx]);
                    }
                }
                out.push(*g);
            }
            proof {
                assert forall|h: i64| out@.contains(h) <==> exists|j: int| 0 <= j < idx + 1
                    && *(#[trigger] seq[j]).0 == h && seq[j].1@.contains(room) by {
                    if out@.contains(h) && !before.contains(h) {
                        assert(*seq[idx].0 == h);
                    }
                    if before.contains(h) {
                        let k = choose|k: int| 0 <= k < before.len() && before[k] == h;
                        assert(out@[k] == h);
                        assert(out@.contains(h));
                    }
                    if exists|j: int| 0 <= j < idx + 1 && *(#[trigger] seq[j]).0 == h && seq[j].1@.contains(room) {
                        let j = choose|j: int| 0 <= j < idx + 1 && *(#[trigger] seq[j]).0 == h && seq[j].1@.contains(room);
                        if j == idx {
                            assert(out@.last() == h);
                        } else {
                            assert(before.contains(h));
                        }
                    }
                }
            }
        }
        proof {
            assert forall|g: i64| out@.contains(g) <==> (m.contains_key(g) && m[g]@.contains(room)) by {
                if m.contains_key(g) && m[g]@.contains(room) {
                    assert(seq.contains((&g, &m[g])));
                    let j = choose|j: int| 0 <= j < seq.len() && seq[j] == (&g, &m[g]);
                    assert(*seq[j].0 == g);
                }
            }
        }
        out
    }

    /// What the followers of a room hear of a change: the notice for each
    /// following group, each group once. The room is the one that the id
    /// text names, 0 when it names none.
    pub fn notices(&self, room_id: &str, room: &Room, change: LiveChange) -> (r: Vec<(i64, Vec<Segment>)>)
        ensures
            announced(self.reminder@, r@, room_id@, room, change),
    {
        let mut out: Vec<(i64, Vec<Segment>)> = Vec::new();
        let msg: Vec<Segment> = match change {
            LiveChange::WentOffline => {
                let mut m: Vec<Segment> = Vec::new();
                m.push(Segment::Text(offline_notice(room)));
                proof {
                    assert(message_view(m@) =~= seq![SegmentView::Text(offline_text(room))]);
                }
                m
            },
            LiveChange::WentLive => live_notice(room),
            _ => {
                return out;
            },
        };
        let number = match parse_i64_text(room_id) {
            Ok(v) => v,
            Err(_) => 0,
        };
        let groups = self.groups_following(number);
        for i in 0..groups.len()
            invariant
                out@.len() == i,
                forall|j: int| 0 <= j < i ==> (#[trigger] out@[j]).0 == groups@[j],
                forall|j: int| 0 <= j < i ==> message_view((#[trigger] out@[j]).1@) == message_view(msg@),
        {
            out.push((groups[i], copy_message(&msg)));
        }
        proof {
            assert(out@.map_values(|n: (i64, Vec<Segment>)| n.0) =~= groups@);
        }
        out
    }

    /// Records what a poll reports of one room and says who hears of it:
    /// the followers of the room, when its stream began or ended since the
    /// last poll; nobody the first time a room is seen.
    pub fn on_room_status(&self, state: &mut LiveState, room_id: String, room: &Room) -> (r: Vec<(i64, Vec<Segment>)>)
        requires
            acceptable_status(old(state)@, room_id@, room.live_status),
        ensures
            final(state)@ == old(state)@.insert(room_id@, room.live_status),
            announced(
                self.reminder@,
                r@,
                room_id@,
                room,
                live_change(last_seen(old(state)@, room_id@), room.live_status),
            ),
    {
        let id_text = room_id.clone();
        let change = state.observe(room_id, room.live_status);
        self.notices(id_text.as_str(), room, change)
    }

    /// Records what one poll reports, room by room in the given order, and
    /// says who hears of each report: for the `i`-th report, what
    /// `on_room_status` says against the statuses seen before it.
    pub fn on_poll(&self, state: &mut LiveState, rooms: &Vec<(String, Room)>) -> (r: Vec<Vec<(i64, Vec<Segment>)>>)
        requires
            poll_acceptable(old(state)@, rooms@),
        ensures
            final(state)@ == poll_state(old(state)@, rooms@),
            r@.len() == rooms@.len(),
            forall|i: int|
                0 <= i < rooms@.len() ==> announced(
                    self.reminder@,
                    (#[trigger] r@[i])@,
                    rooms@[i].0@,
                    &rooms@[i].1,
                    poll_change(old(state)@, rooms@, i),
                ),
            distinct_reports(rooms@) ==> forall|i: int|
                0 <= i < rooms@.len() && (#[trigger] r@[i])@.len() > 0 ==> old(state)@.contains_key(rooms@[i].0@)
                    && old(state)@[rooms@[i].0@] != rooms@[i].1.live_status && (rooms@[i].1.live_status == 0
                    || rooms@[i].1.live_status == 1),
    {
        let ghost start = state@;
        let mut out: Vec<Vec<(i64, Vec<Segment>)>> = Vec::new();
        proof {
            assert(rooms@.take(0) =~= Seq::<(String, Room)>::empty());
        }
        for i in 0..rooms.len()
            invariant
                state@ == poll_state(start, rooms@.take(i as int)),
                poll_acceptable(start, rooms@),
                out@.len() == i,
                forall|j: int|
                    0 <= j < i ==> announced(
                        self.reminder@,
                        (#[trigger] out@[j])@,
                        rooms@[j].0@,
                        &rooms@[j].1,
                        poll_change(start, rooms@, j),
                    ),
        {
            let ghost next = rooms@.take(i + 1);
            proof {
                lemma_poll_acceptable_prefix(start, rooms@, i + 1);
                assert(next.drop_last() =~= rooms@.take(i as int));
                assert(next.last() == rooms@[i as int]);
            }
            let entry = &rooms[i];
            let part = self.on_room_status(state, entry.0.clone(), &entry.1);
            let ghost before = out@;
            out.push(part);
            proof {
                assert forall|j: int|
                    0 <= j < i + 1 implies announced(
                        self.reminder@,
                        (#[trigger] out@[j])@,
                        rooms@[j].0@,
                        &rooms@[j].1,
                        poll_change(start, rooms@, j),
                    ) by {
                    if j < i {
                        assert(out@[j] == before[j]);
                    }
                }
            }
        }
        proof {
            assert(rooms@.take(rooms@.len() as int) =~= rooms@);
            if distinct_reports(rooms@) {
                law_poll_announces_only_changes(start, rooms@);
                assert forall|i: int| 0 <= i < rooms@.len() && (#[trigger] out@[i])@.len() > 0 implies start.contains_key(
                    rooms@[i].0@,
                ) && start[rooms@[i].0@] != rooms@[i].1.live_status && (rooms@[i].1.live_status == 0
                    || rooms@[i].1.live_status == 1) by {
                    assert(notice_for(&rooms@[i].1, poll_change(start, rooms@, i)) is Some);
                }
            }
        }
        out
    }

    /// The query of the status service for every room that some group
    /// follows.
    pub fn status_query(&self) -> (q: Vec<(String, String)>)
        ensures
            q@.len() == self.room_ids@.len() + 1,
            q@[0].0@ == "req_biz"@,
            q@[0].1@ == "web_room_componet"@,
            forall|i: int| 1 <= i < q@.len() ==> (#[trigger] q@[i]).0@ == "room_ids"@,
            forall|r: i64| self.room_ids@.contains(r) <==> exists|i: int| 1 <= i < q@.len() && (#[trigger] q@[i]).1@ == decimal(r as int),
    {
        room_status_query(&self.room_ids)
    }
}

/// The query of the status service for the given rooms: the fixed `req_biz`
/// pair, then one `room_ids` pair for each room, each once.
pub fn room_status_query(room_ids: &HashSet<i64>) -> (q: Vec<(String, String)>)
    ensures
        q@.len() == room_ids@.len() + 1,
        q@[0].0@ == "req_biz"@,
        q@[0].1@ == "web_room_componet"@,
        forall|i: int| 1 <= i < q@.len() ==> (#[trigger] q@[i]).0@ == "room_ids"@,
        forall|r: i64| room_ids@.contains(r) <==> exists|i: int| 1 <= i < q@.len() && (#[trigger] q@[i]).1@ == decimal(r as int),
{
    let mut q: Vec<(String, String)> = Vec::new();
    q.push((String::from_str("req_biz"), String::from_str("web_room_componet")));
    let ghost seq = vstd::std_specs::hash::spec_hash_keys_iter(room_ids).remaining();
    for room_id in it: room_ids.iter()
        invariant
            it.seq() == seq,
            seq.len() == room_ids@.len(),
            q@.len() == it.index() + 1,
            q@[0].0@ == "req_biz"@,
            q@[0].1@ == "web_room_componet"@,
            forall|i: int| 1 <= i < q@.len() ==> (#[trigger] q@[i]).0@ == "room_ids"@,
            forall|i: int| 1 <= i < q@.len() ==> (#[trigger] q@[i]).1@ == decimal(*seq[i - 1] as int),
    {
        q.push((String::from_str("room_ids"), decimal_text(*room_id)));
    }
    proof {
        assert forall|r: i64| room_ids@.contains(r) <==> exists|i: int| 1 <= i < q@.len() && (#[trigger] q@[i]).1@ == decimal(r as int) by {
            if room_ids@.contains(r) {
                assert(seq.unref().to_set().contains(r));
                let k = choose|k: int| 0 <= k < seq.unref().len() && seq.unref()[k] == r;
                assert(q@[k + 1].1@ == decimal(r as int));
            }
            if exists|i: int| 1 <= i < q@.len() && (#[trigger] q@[i]).1@ == decimal(r as int) {
                let i = choose|i: int| 1 <= i < q@.len() && (#[trigger] q@[i]).1@ == decimal(r as int);
                crate::text::law_parse_i64_undoes_decimal(r);
                crate::text::law_parse_i64_undoes_decimal(*seq[i - 1]);
                assert(seq.unref()[i - 1] == *seq[i - 1]);
                assert(seq.unref().to_set().contains(*seq[i - 1]));
            }
        }
    }
    q
}

/// The first report of a room tells nobody anything, whatever its status.
pub proof fn law_first_report_is_silent(room: Room, last: Map<Seq<char>, i32>, room_id: Seq<char>)
    requires
        !last.contains_key(room_id),
    ensures
        notice_for(&room, live_change(last_seen(last, room_id), room.live_status)) is None,
{
}

/// A room's status, once recorded, is what the next report is held
/// against: the same status reported again tells nobody anything.
pub proof fn law_repeated_report_is_silent(room: Room, last: Map<Seq<char>, i32>, room_id: Seq<char>)
    ensures
        notice_for(
            &room,
            live_change(last_seen(last.insert(room_id, room.live_status), room_id), room.live_status),
        ) is None,
{
}

/// Only the start and the end of a stream are announced: a switch to
/// replays tells nobody anything.
pub proof fn law_only_start_and_end_are_announced(room: Room, last: Option<i32>)
    ensures
        notice_for(&room, live_change(last, room.live_status)) is Some ==> (last is Some && last->0
            != room.live_status && (room.live_status == 0 || room.live_status == 1)),
{
}

/// After a poll (which reports each room once), each reported room's last
/// status is the reported one, and every other room keeps what it had.
pub proof fn law_poll_records_each_report(last: Map<Seq<char>, i32>, rooms: Seq<(String, Room)>)
    requires
        distinct_reports(rooms),
    ensures
        forall|i: int|
            0 <= i < rooms.len() ==> poll_state(last, rooms).contains_key((#[trigger] rooms[i]).0@) && poll_state(
                last,
                rooms,
            )[rooms[i].0@] == rooms[i].1.live_status,
        forall|k: Seq<char>|
            (forall|i: int| 0 <= i < rooms.len() ==> (#[trigger] rooms[i]).0@ != k) ==> (#[trigger] last_seen(
                poll_state(last, rooms),
                k,
            )) == last_seen(last, k),
{
    assert forall|i: int| 0 <= i < rooms.len() implies poll_state(last, rooms).contains_key(
        (#[trigger] rooms[i]).0@,
    ) && poll_state(last, rooms)[rooms[i].0@] == rooms[i].1.live_status by {
        lemma_poll_state_reported(last, rooms, i);
    }
    assert forall|k: Seq<char>|
        (forall|i: int| 0 <= i < rooms.len() ==> (#[trigger] rooms[i]).0@ != k) implies (#[trigger] last_seen(
        poll_state(last, rooms),
        k,
    )) == last_seen(last, k) by {
        lemma_poll_state_unreported(last, rooms, k);
    }
}

/// In a poll (which reports each room once), a report is announced only
/// when the room had been seen before with another status and its stream
/// now began or ended; so the first poll, before any room was seen,
/// announces nothing.
pub proof fn law_poll_announces_only_changes(last: Map<Seq<char>, i32>, rooms: Seq<(String, Room)>)
    requires
        distinct_reports(rooms),
    ensures
        forall|i: int|
            0 <= i < rooms.len() && (#[trigger] notice_for(&rooms[i].1, poll_change(last, rooms, i))) is Some
                ==> last.contains_key(rooms[i].0@) && last[rooms[i].0@] != rooms[i].1.live_status && (
            rooms[i].1.live_status == 0 || rooms[i].1.live_status == 1),
        last == Map::<Seq<char>, i32>::empty() ==> forall|i: int|
            0 <= i < rooms.len() ==> (#[trigger] notice_for(&rooms[i].1, poll_change(last, rooms, i))) is None,
{
    assert forall|i: int| 0 <= i < rooms.len() implies last_seen(poll_state(last, rooms.take(i)), rooms[i].0@)
        == last_seen(last, rooms[i].0@) by {
        let t = rooms.take(i);
        assert forall|j: int| 0 <= j < t.len() implies (#[trigger] t[j]).0@ != rooms[i].0@ by {
            assert(t[j] == rooms[j]);
        }
        lemma_poll_state_unreported(last, t, rooms[i].0@);
    }
}

/// Two polls in a row that report the same statuses (each room once): the
/// second one is acceptable, changes no status and announces nothing.
pub proof fn law_repeated_poll_is_silent(last: Map<Seq<char>, i32>, rooms: Seq<(String, Room)>)
    requires
        distinct_reports(rooms),
    ensures
        poll_acceptable(poll_state(last, rooms), rooms),
        poll_state(poll_state(last, rooms), rooms) == poll_state(last, rooms),
        forall|i: int|
            0 <= i < rooms.len() ==> (#[trigger] poll_change(poll_state(last, rooms), rooms, i))
                == LiveChange::Unchanged,
        forall|i: int|
            0 <= i < rooms.len() ==> (#[trigger] notice_for(&rooms[i].1, poll_change(poll_state(last, rooms), rooms, i)))
                is None,
{
    let after = poll_state(last, rooms);
    law_poll_records_each_report(last, rooms);
    lemma_poll_state_settled(after, rooms);
    assert forall|i: int| 0 <= i < rooms.len() implies (#[trigger] poll_change(after, rooms, i))
        == LiveChange::Unchanged by {
        let t = rooms.take(i);
        assert forall|j: int| 0 <= j < t.len() implies (#[trigger] t[j]).0@ != rooms[i].0@ by {
            assert(t[j] == rooms[j]);
        }
        lemma_poll_state_unreported(after, t, rooms[i].0@);
        assert(after.contains_key(rooms[i].0@));
    }
    assert forall|i: int| 0 <= i < rooms.len() implies (#[trigger] notice_for(&rooms[i].1, poll_change(after, rooms, i)))
        is None by {
        assert(poll_change(after, rooms, i) == LiveChange::Unchanged);
    }
}

/// A real change of a room's status to 0 or 1 is always announced: a
/// stream end (a change to 0, from live or from replays alike) is told as
/// "<streamer> 下播了", a stream start (a change to 1) with the live notice.
/// Together with `law_only_start_and_end_are_announced`: a report is
/// announced exactly when the room had been seen with another status and
/// the new one is 0 or 1.
pub proof fn law_real_changes_are_announced(room: Room, last: Option<i32>)
    ensures
        notice_for(&room, live_change(last, room.live_status)) is Some <==> (last is Some && last->0
            != room.live_status && (room.live_status == 0 || room.live_status == 1)),
        last is Some && last->0 != room.live_status && room.live_status == 0 ==> live_change(
            last,
            room.live_status,
        ) == LiveChange::WentOffline && notice_for(&room, live_change(last, room.live_status)) == Some(
            seq![SegmentView::Text(room.uname@ + " 下播了"@)],
        ),
        last is Some && last->0 != room.live_status && room.live_status == 1 ==> live_change(
            last,
            room.live_status,
        ) == LiveChange::WentLive && notice_for(&room, live_change(last, room.live_status)) == Some(
            live_message(&room),
        ),
        last is Some && last->0 == room.live_status ==> live_change(last, room.live_status)
            == LiveChange::Unchanged,
        last is None ==> live_change(last, room.live_status) == LiveChange::FirstSeen,
{
}

/// A live notice and a query answer show the room's own fields, in the
/// same places: the streamer first, then the area, the cover image, the
/// title and the room's URL. Only the first line differs, by the status
/// word; for a live room it is the live notice's first line.
pub proof fn law_query_and_notice_show_the_room(room: Room)
    ensures
        live_message(&room).len() == 5,
        query_message(&room).len() == 5,
        query_message(&room).drop_first() == live_message(&room).drop_first(),
        live_message(&room)[1] == SegmentView::Text(room.area_name@ + "\n"@),
        live_message(&room)[2] == SegmentView::Image(room.cover@),
        live_message(&room)[3] == SegmentView::Text(room.title@ + "\n"@),
        live_message(&room)[4] == SegmentView::Text(room.live_url@),
        live_message(&room)[0] == SegmentView::Text(room.uname@ + " "@ + status_word(1) + "\n"@),
        room.live_status == 1 ==> query_message(&room) == live_message(&room),
        query_message(&room)[0] == SegmentView::Text(room.uname@ + " "@ + status_word(room.live_status) + "\n"@),
{
    reveal_strlit(" 正在直播\n");
    reveal_strlit(" ");
    reveal_strlit("\n");
    reveal_strlit("正在直播");
    assert(" 正在直播\n"@ =~= " "@ + "正在直播"@ + "\n"@);
    assert(room.uname@ + " 正在直播\n"@ =~= room.uname@ + " "@ + status_word(1) + "\n"@);
    assert(query_message(&room).drop_first() =~= live_message(&room).drop_first());
    if room.live_status == 1 {
        assert(query_message(&room) =~= live_message(&room));
    }
}

/// The three status words of a query answer tell the statuses apart.
pub proof fn law_status_words_differ()
    ensures
        status_word(0) != status_word(1),
        status_word(1) != status_word(2),
        status_word(0) != status_word(2),
{
    reveal_strlit("已下播");
    reveal_strlit("正在直播");
    reveal_strlit("轮播中");
    assert(status_word(0)[0] != status_word(1)[0]);
    assert(status_word(1)[0] != status_word(2)[0]);
    assert(status_word(0)[0] != status_word(2)[0]);
}

} // verus!
