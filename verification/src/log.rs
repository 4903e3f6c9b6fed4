//! Per-key append-only logs with offset-indexed polling.

use vstd::prelude::*;
use crate::error::NodeError;
use crate::message::{meets, views, Body, BodyView, Message, MessageView, Outcome};
use crate::sender::{advanced, envelope, Sender, SenderView};
use crate::strmap::{lemma_map_of_push, map_of, StrMap};
use crate::text::names;

verus! {

/// Position of an entry within the log of one key.
pub type Offset = i64;

/// Payload stored in a log.
pub type Entry = usize;

/// Offsets never decrease along the sequence.
pub open spec fn offsets_ascending<T>(s: Seq<(Offset, T)>) -> bool {
    forall|i: int, j: int| 0 <= i <= j < s.len() ==> s[i].0 <= s[j].0
}

/// Offsets strictly increase along the sequence.
pub open spec fn offsets_increasing<T>(s: Seq<(Offset, T)>) -> bool {
    forall|i: int, j: int| 0 <= i < j < s.len() ==> s[i].0 < s[j].0
}

/// Index of the first entry whose offset is at least `offset`,
/// or the length of the sequence when there is none.
pub open spec fn first_at_or_after<T>(s: Seq<(Offset, T)>, offset: Offset) -> int
    decreases s.len(),
{
    if s.len() == 0 || s[0].0 >= offset {
        0
    } else {
        1 + first_at_or_after(s.subrange(1, s.len() as int), offset)
    }
}

/// `first_at_or_after` is the one index that has only smaller offsets
/// before it and an offset of at least `offset` at it.
pub proof fn lemma_first_at_or_after<T>(s: Seq<(Offset, T)>, offset: Offset, r: int)
    requires
        0 <= r <= s.len(),
        forall|i: int| 0 <= i < r ==> s[i].0 < offset,
        r < s.len() ==> s[r].0 >= offset,
    ensures
        first_at_or_after(s, offset) == r,
    decreases s.len(),
{
    if s.len() == 0 || s[0].0 >= offset {
    } else {
        let tail = s.subrange(1, s.len() as int);
        assert forall|i: int| 0 <= i < r - 1 implies tail[i].0 < offset by {
            assert(tail[i] == s[i + 1]);
        }
        lemma_first_at_or_after(tail, offset, r - 1);
    }
}

/// Finds where polling from `offset` starts in `arr`.
pub fn binary_search<T>(arr: &[(Offset, T)], offset: Offset) -> (r: usize)
    ensures
        r <= arr@.len(),
        r > 0 ==> arr@[r - 1].0 < offset,
        r < arr@.len() ==> arr@[r as int].0 >= offset,
        offsets_ascending(arr@) ==> r == first_at_or_after(arr@, offset),
{
    if arr.len() == 0 || arr[0].0 >= offset {
        return 0;
    }
    let mut left: usize = 0;
    let mut right: usize = arr.len();
    while left + 1 < right
        invariant
            left < right <= arr@.len(),
            arr@[left as int].0 < offset,
            right < arr@.len() ==> arr@[right as int].0 >= offset,
        decreases right - left,
    {
        let index: usize = left + (right - left) / 2;
        if arr[index].0 < offset {
            left = index;
        } else {
            right = index;
        }
    }
    proof {
        if offsets_ascending(arr@) {
            lemma_first_at_or_after(arr@, offset, right as int);
        }
    }
    right
}

/// The most entries that one poll returns for a key.
pub const POLL_CAP: usize = 10;

/// The entries that a poll from `from` returns of `log`: up to
/// `POLL_CAP` consecutive entries, from the first with an offset of at
/// least `from`.
pub open spec fn window(log: Seq<(Offset, Entry)>, from: Offset) -> Seq<(Offset, Entry)> {
    let start = first_at_or_after(log, from);
    let end = if start + POLL_CAP <= log.len() {
        start + POLL_CAP
    } else {
        log.len() as int
    };
    log.subrange(start, end)
}

/// The offset that an entry appended to `log` gets when the clock reads
/// `now`: the clock's reading if that is above every offset of the log,
/// else the last offset plus one. There is none above the largest number.
pub open spec fn next_offset(log: Seq<(Offset, Entry)>, now: Offset) -> Option<Offset> {
    if log.len() == 0 || log.last().0 < now {
        Some(now)
    } else if log.last().0 < i64::MAX {
        Some((log.last().0 + 1) as i64)
    } else {
        None
    }
}

/// The logs of a map of entry lists.
pub open spec fn entries_of(m: Map<Seq<char>, Vec<(Offset, Entry)>>) -> Map<
    Seq<char>,
    Seq<(Offset, Entry)>,
> {
    m.map_values(|v: Vec<(Offset, Entry)>| v@)
}

/// The logs of all keys and the committed offsets.
pub struct LogService {
    logs: StrMap<Vec<(Offset, Entry)>>,
    commits: StrMap<Offset>,
}

/// What a `LogService` holds.
pub struct LogServiceView {
    /// For each key that was sent to, its entries in the order of sending.
    pub logs: Map<Seq<char>, Seq<(Offset, Entry)>>,
    /// For each key that was committed, the offset committed last.
    pub commits: Map<Seq<char>, Offset>,
}

impl View for LogService {
    type V = LogServiceView;

    closed spec fn view(&self) -> LogServiceView {
        LogServiceView { logs: entries_of(self.logs@), commits: self.commits@ }
    }
}

impl LogServiceView {
    /// Every log has an entry, and its offsets strictly increase.
    pub open spec fn wf(self) -> bool {
        forall|k: Seq<char>| #[trigger]
            self.logs.contains_key(k) ==> self.logs[k].len() > 0 && offsets_increasing(
                self.logs[k],
            )
    }

    /// The log of `key`, empty if nothing was sent to it.
    pub open spec fn log_of(self, key: Seq<char>) -> Seq<(Offset, Entry)> {
        if self.logs.contains_key(key) {
            self.logs[key]
        } else {
            Seq::empty()
        }
    }

    /// Appends `entry` to the log of `key` while the clock reads `now`.
    pub open spec fn send_at(self, key: Seq<char>, entry: Entry, now: Offset) -> Result<
        (LogServiceView, Offset),
        NodeError,
    > {
        match next_offset(self.log_of(key), now) {
            Some(offset) => Ok(
                (
                    LogServiceView {
                        logs: self.logs.insert(key, self.log_of(key).push((offset, entry))),
                        ..self
                    },
                    offset,
                ),
            ),
            None => Err(NodeError::OffsetsExhausted),
        }
    }

    /// For each key of `offsets` that has a log, the window of that log
    /// from the offset asked for.
    pub open spec fn poll(self, offsets: Map<Seq<char>, Offset>) -> Map<
        Seq<char>,
        Seq<(Offset, Entry)>,
    > {
        Map::new(
            |k: Seq<char>| offsets.contains_key(k) && self.logs.contains_key(k),
            |k: Seq<char>| window(self.logs[k], offsets[k]),
        )
    }

    /// Records `offsets` as committed, whatever was committed before.
    pub open spec fn commit_offsets(self, offsets: Map<Seq<char>, Offset>) -> LogServiceView {
        LogServiceView { commits: self.commits.union_prefer_right(offsets), ..self }
    }

    /// The committed offsets of those of `keys` that have one.
    pub open spec fn list_committed_offsets(self, keys: Seq<Seq<char>>) -> Map<
        Seq<char>,
        Offset,
    > {
        Map::new(
            |k: Seq<char>| keys.contains(k) && self.commits.contains_key(k),
            |k: Seq<char>| self.commits[k],
        )
    }
}

/// Microseconds since the Unix epoch by the system clock, as
/// `chrono::Utc::now().timestamp_micros()` gives them. Nothing is claimed
/// of the number: the clock may stand still or run backwards. The call
/// panics where the system clock stands before the epoch.
#[verifier::external_body]
pub(crate) fn clock_micros() -> (now: Offset) {
    chrono::offset::Utc::now().timestamp_micros()
}

impl LogService {
    /// A service without logs and without committed offsets.
    pub fn new() -> (r: LogService)
        ensures
            r@ == (LogServiceView { logs: Map::empty(), commits: Map::empty() }),
            r@.wf(),
    {
        let r = LogService { logs: StrMap::new(), commits: StrMap::new() };
        assert(r@.logs =~= Map::empty());
        r
    }

    /// Appends `entry` to the log of `key` under an offset above every
    /// offset of that log, and returns the offset. `now` is the reading of
    /// the clock.
    pub fn send_at(&mut self, key: &str, entry: Entry, now: Offset) -> (r: Result<
        Offset,
        NodeError,
    >)
        requires
            old(self)@.wf(),
        ensures
            final(self)@.wf(),
            match old(self)@.send_at(key@, entry, now) {
                Ok((state, offset)) => r == Ok::<Offset, NodeError>(offset) && final(self)@
                    == state,
                Err(e) => r == Err::<Offset, NodeError>(e) && final(self)@ == old(self)@,
            },
    {
        let ghost before = self@;
        let ghost old_log = before.log_of(key@);
        match self.logs.position(key) {
            Some(i) => {
                let log = self.logs.value_at(i);
                assert(before.logs.contains_key(key@) && before.logs[key@] == log@);
                let last: Offset = log[log.len() - 1].0;
                let offset: Offset = if last < now {
                    now
                } else if last < i64::MAX {
                    last + 1
                } else {
                    return Err(NodeError::OffsetsExhausted);
                };
                let mut log = self.logs.replace_at(i, Vec::new());
                log.push((offset, entry));
                self.logs.replace_at(i, log);
                proof {
                    assert(self.logs@ =~= old(self).logs@.insert(key@, log));
                    assert(self@.logs =~= before.logs.insert(key@, old_log.push((offset, entry))));
                    assert(offsets_increasing(old_log.push((offset, entry))));
                }
                Ok(offset)
            },
            None => {
                let mut log: Vec<(Offset, Entry)> = Vec::new();
                log.push((now, entry));
                self.logs.insert(key.to_owned(), log);
                proof {
                    assert(old_log.push((now, entry)) =~= log@);
                    assert(self@.logs =~= before.logs.insert(key@, old_log.push((now, entry))));
                }
                Ok(now)
            },
        }
    }

    /// Appends `entry` to the log of `key` under a fresh offset, taken
    /// from the system clock where that is above the log's last offset.
    pub fn send(&mut self, key: &str, entry: Entry) -> (r: Result<Offset, NodeError>)
        requires
            old(self)@.wf(),
        ensures
            final(self)@.wf(),
            exists|now: Offset|
                match #[trigger] old(self)@.send_at(key@, entry, now) {
                    Ok((state, offset)) => r == Ok::<Offset, NodeError>(offset) && final(self)@
                        == state,
                    Err(e) => r == Err::<Offset, NodeError>(e) && final(self)@ == old(self)@,
                },
    {
        let now = clock_micros();
        self.send_at(key, entry, now)
    }

    /// The entries of `log` that a poll from `from` returns.
    fn window_of(log: &Vec<(Offset, Entry)>, from: Offset) -> (r: Vec<(Offset, Entry)>)
        requires
            offsets_increasing(log@),
        ensures
            r@ == window(log@, from),
    {
        let start: usize = binary_search(log.as_slice(), from);
        let end: usize = if log.len() - start > POLL_CAP {
            start + POLL_CAP
        } else {
            log.len()
        };
        let mut out: Vec<(Offset, Entry)> = Vec::new();
        let mut j: usize = start;
        while j < end
            invariant
                start <= j <= end <= log@.len(),
                out@ == log@.subrange(start as int, j as int),
            decreases end - j,
        {
            out.push(log[j]);
            assert(out@ =~= log@.subrange(start as int, j + 1));
            j += 1;
        }
        out
    }

    /// For each key of `offsets` that has a log, up to `POLL_CAP` entries
    /// of it, from the first with an offset of at least the one asked for.
    /// Keys without a log are left out.
    pub fn poll(&self, offsets: &StrMap<Offset>) -> (r: StrMap<Vec<(Offset, Entry)>>)
        requires
            self@.wf(),
        ensures
            entries_of(r@) == self@.poll(offsets@),
    {
        let mut out: StrMap<Vec<(Offset, Entry)>> = StrMap::new();
        let n: usize = offsets.len();
        let mut i: usize = 0;
        while i < n
            invariant
                i <= n == offsets.keys().len(),
                offsets.keys().len() == offsets.values().len(),
                offsets.keys().no_duplicates(),
                self@.wf(),
                entries_of(out@) == self@.poll(
                    map_of(offsets.keys().take(i as int), offsets.values().take(i as int)),
                ),
            decreases n - i,
        {
            let key = offsets.key_at(i);
            let from: Offset = *offsets.value_at(i);
            let ghost asked = map_of(offsets.keys().take(i as int), offsets.values().take(i as int));
            proof {
                lemma_take_push(offsets.keys(), offsets.values(), i as int);
            }
            match self.logs.get(key.as_str()) {
                Some(log) => {
                    assert(self@.logs.contains_key(key@) && self@.logs[key@] == log@);
                    let entries = LogService::window_of(log, from);
                    let ghost polled = entries_of(out@);
                    out.insert(key.clone(), entries);
                    proof {
                        let wanted = self@.poll(asked.insert(key@, from));
                        assert(entries_of(out@) =~= polled.insert(key@, entries@));
                        assert forall|k: Seq<char>| #[trigger]
                            wanted.contains_key(k) implies polled.insert(key@, entries@)[k]
                            == wanted[k] by {
                            if k != key@ {
                                assert(self@.poll(asked).contains_key(k));
                            }
                        }
                        assert(polled.insert(key@, entries@) =~= wanted);
                    }
                },
                None => {
                    assert(!self@.logs.contains_key(key@));
                    assert(entries_of(out@) =~= self@.poll(asked.insert(key@, from)));
                },
            }
            i += 1;
        }
        proof {
            assert(offsets.keys().take(n as int) =~= offsets.keys());
            assert(offsets.values().take(n as int) =~= offsets.values());
        }
        out
    }

    /// Records each offset of `offsets` as the committed offset of its
    /// key, in place of what was recorded before.
    pub fn commit_offsets(&mut self, offsets: &StrMap<Offset>)
        requires
            old(self)@.wf(),
        ensures
            final(self)@.wf(),
            final(self)@ == old(self)@.commit_offsets(offsets@),
    {
        let n: usize = offsets.len();
        let mut i: usize = 0;
        assert(self@.commits =~= old(self)@.commits.union_prefer_right(
            map_of(offsets.keys().take(0), offsets.values().take(0)),
        ));
        while i < n
            invariant
                i <= n == offsets.keys().len(),
                offsets.keys().len() == offsets.values().len(),
                offsets.keys().no_duplicates(),
                self@.logs == old(self)@.logs,
                self@.commits == old(self)@.commits.union_prefer_right(
                    map_of(offsets.keys().take(i as int), offsets.values().take(i as int)),
                ),
            decreases n - i,
        {
            let key = offsets.key_at(i);
            let offset: Offset = *offsets.value_at(i);
            let ghost taken = map_of(offsets.keys().take(i as int), offsets.values().take(i as int));
            proof {
                lemma_take_push(offsets.keys(), offsets.values(), i as int);
            }
            self.commits.insert(key.clone(), offset);
            assert(self@.commits =~= old(self)@.commits.union_prefer_right(
                taken.insert(key@, offset),
            ));
            i += 1;
        }
        proof {
            assert(offsets.keys().take(n as int) =~= offsets.keys());
            assert(offsets.values().take(n as int) =~= offsets.values());
        }
    }

    /// The committed offset of each of `keys` that has one. Keys without
    /// a committed offset are left out.
    pub fn list_committed_offsets(&self, keys: &Vec<String>) -> (r: StrMap<Offset>)
        ensures
            r@ == self@.list_committed_offsets(names(keys@)),
    {
        let mut out: StrMap<Offset> = StrMap::new();
        let mut i: usize = 0;
        assert(out@ =~= self@.list_committed_offsets(names(keys@).take(0)));
        while i < keys.len()
            invariant
                i <= keys@.len(),
                out@ == self@.list_committed_offsets(names(keys@).take(i as int)),
            decreases keys@.len() - i,
        {
            let ghost seen = names(keys@).take(i as int);
            assert(names(keys@).take(i + 1) =~= seen.push(keys@[i as int]@));
            assert forall|k: Seq<char>| seen.push(keys@[i as int]@).contains(k) <==> (seen.contains(
                k,
            ) || k == keys@[i as int]@) by {
                if seen.contains(k) {
                    let j = seen.index_of(k);
                    assert(seen.push(keys@[i as int]@)[j] == k);
                }
                assert(seen.push(keys@[i as int]@)[i as int] == keys@[i as int]@);
            }
            match self.commits.get(keys[i].as_str()) {
                Some(offset) => {
                    out.insert(keys[i].clone(), *offset);
                },
                None => {},
            }
            assert(out@ =~= self@.list_committed_offsets(names(keys@).take(i + 1)));
            i += 1;
        }
        assert(names(keys@).take(i as int) =~= names(keys@));
        out
    }
}

/// Payloads of the log protocol.
#[allow(inconsistent_fields)]
#[derive(Debug)]
pub enum LogPayload {
    Send { key: String, msg: Entry },
    SendOk { offset: Offset },
    Poll { offsets: StrMap<Offset> },
    PollOk { msgs: StrMap<Vec<(Offset, Entry)>> },
    CommitOffsets { offsets: StrMap<Offset> },
    CommitOffsetsOk,
    ListCommittedOffsets { keys: Vec<String> },
    ListCommittedOffsetsOk { offsets: StrMap<Offset> },
    Error { code: u64, text: String },
}

/// What a log payload holds.
#[allow(inconsistent_fields)]
pub enum LogPayloadView {
    Send { key: Seq<char>, msg: Entry },
    SendOk { offset: Offset },
    Poll { offsets: Map<Seq<char>, Offset> },
    PollOk { msgs: Map<Seq<char>, Seq<(Offset, Entry)>> },
    CommitOffsets { offsets: Map<Seq<char>, Offset> },
    CommitOffsetsOk,
    ListCommittedOffsets { keys: Seq<Seq<char>> },
    ListCommittedOffsetsOk { offsets: Map<Seq<char>, Offset> },
    Error { code: u64, text: Seq<char> },
}

impl View for LogPayload {
    type V = LogPayloadView;

    open spec fn view(&self) -> LogPayloadView {
        match *self {
            LogPayload::Send { key, msg } => LogPayloadView::Send { key: key@, msg },
            LogPayload::SendOk { offset } => LogPayloadView::SendOk { offset },
            LogPayload::Poll { offsets } => LogPayloadView::Poll { offsets: offsets@ },
            LogPayload::PollOk { msgs } => LogPayloadView::PollOk { msgs: entries_of(msgs@) },
            LogPayload::CommitOffsets { offsets } => LogPayloadView::CommitOffsets {
                offsets: offsets@,
            },
            LogPayload::CommitOffsetsOk => LogPayloadView::CommitOffsetsOk,
            LogPayload::ListCommittedOffsets { keys } => LogPayloadView::ListCommittedOffsets {
                keys: names(keys@),
            },
            LogPayload::ListCommittedOffsetsOk { offsets } => LogPayloadView::ListCommittedOffsetsOk {
                offsets: offsets@,
            },
            LogPayload::Error { code, text } => LogPayloadView::Error { code, text: text@ },
        }
    }
}

/// An envelope of the log protocol.
pub type LogMessage = Message<Body<LogPayload>>;

/// What an envelope of the log protocol holds.
pub type LogMessageView = MessageView<BodyView<LogPayloadView>>;

/// A node that serves the logs of the keys routed to it.
pub struct LogNode {
    sender: Sender,
    service: LogService,
}

/// What a `LogNode` is.
pub struct LogView {
    pub sender: SenderView,
    pub service: LogServiceView,
}

impl View for LogNode {
    type V = LogView;

    closed spec fn view(&self) -> LogView {
        LogView { sender: self.sender@, service: self.service@ }
    }
}

impl LogView {
    pub open spec fn wf(self) -> bool {
        self.service.wf()
    }

    /// Answers `msg` with `payload`, and goes on with `service`.
    pub open spec fn reply(
        self,
        msg: LogMessageView,
        payload: LogPayloadView,
        service: LogServiceView,
    ) -> Outcome<LogView, LogMessageView> {
        Ok(
            (
                LogView { sender: advanced(self.sender, 1), service },
                seq![envelope(self.sender, msg.src, msg.body.msg_id, payload)],
            ),
        )
    }

    /// What an inbound envelope leads to while the clock reads `now`.
    /// Every request is answered to its sender.
    pub open spec fn handle_at(self, msg: LogMessageView, now: Offset) -> Outcome<
        LogView,
        LogMessageView,
    > {
        match msg.body.fields {
            LogPayloadView::Send { key, msg: entry } => if self.sender.next_id + 1 > u64::MAX {
                Err(NodeError::IdsExhausted)
            } else {
                match self.service.send_at(key, entry, now) {
                    Ok((service, offset)) => self.reply(
                        msg,
                        LogPayloadView::SendOk { offset },
                        service,
                    ),
                    Err(e) => Err(e),
                }
            },
            LogPayloadView::Poll { offsets } => if self.sender.next_id + 1 > u64::MAX {
                Err(NodeError::IdsExhausted)
            } else {
                self.reply(
                    msg,
                    LogPayloadView::PollOk { msgs: self.service.poll(offsets) },
                    self.service,
                )
            },
            LogPayloadView::CommitOffsets { offsets } => if self.sender.next_id + 1 > u64::MAX {
                Err(NodeError::IdsExhausted)
            } else {
                self.reply(
                    msg,
                    LogPayloadView::CommitOffsetsOk,
                    self.service.commit_offsets(offsets),
                )
            },
            LogPayloadView::ListCommittedOffsets { keys } => if self.sender.next_id + 1
                > u64::MAX {
                Err(NodeError::IdsExhausted)
            } else {
                self.reply(
                    msg,
                    LogPayloadView::ListCommittedOffsetsOk {
                        offsets: self.service.list_committed_offsets(keys),
                    },
                    self.service,
                )
            },
            _ => Err(NodeError::UnsupportedType),
        }
    }
}

impl LogNode {
    /// A node without logs.
    pub fn new(sender: Sender) -> (r: LogNode)
        ensures
            r@ == (LogView {
                sender: sender@,
                service: LogServiceView { logs: Map::empty(), commits: Map::empty() },
            }),
            r@.wf(),
    {
        LogNode { sender, service: LogService::new() }
    }

    /// The logs and committed offsets of the node.
    pub fn service(&self) -> (r: &LogService)
        ensures
            r@ == self@.service,
    {
        &self.service
    }

    fn answer(&mut self, msg: &LogMessage, payload: LogPayload) -> (r: Result<
        Vec<LogMessage>,
        NodeError,
    >)
        requires
            old(self)@.sender.next_id + 1 <= u64::MAX,
        ensures
            final(self)@.service == old(self)@.service,
            meets(r, old(self)@, final(self)@, old(self)@.reply(msg@, payload@, old(self)@.service)),
    {
        match self.sender.respond(msg, payload) {
            Ok(reply) => {
                let mut out: Vec<LogMessage> = Vec::new();
                out.push(reply);
                assert(views(out@) =~= seq![reply@]);
                Ok(out)
            },
            Err(e) => Err(e),
        }
    }

    /// Handles an inbound envelope while the clock reads `now`.
    pub fn handle_at(&mut self, msg: &LogMessage, now: Offset) -> (r: Result<
        Vec<LogMessage>,
        NodeError,
    >)
        requires
            old(self)@.wf(),
        ensures
            final(self)@.wf(),
            meets(r, old(self)@, final(self)@, old(self)@.handle_at(msg@, now)),
    {
        match &msg.body.fields {
            LogPayload::Send { key, msg: entry } => {
                if self.sender.ids_left() < 1 {
                    return Err(NodeError::IdsExhausted);
                }
                let offset = match self.service.send_at(key.as_str(), *entry, now) {
                    Ok(offset) => offset,
                    Err(e) => {
                        return Err(e);
                    },
                };
                self.answer(msg, LogPayload::SendOk { offset })
            },
            LogPayload::Poll { offsets } => {
                if self.sender.ids_left() < 1 {
                    return Err(NodeError::IdsExhausted);
                }
                let msgs = self.service.poll(offsets);
                self.answer(msg, LogPayload::PollOk { msgs })
            },
            LogPayload::CommitOffsets { offsets } => {
                if self.sender.ids_left() < 1 {
                    return Err(NodeError::IdsExhausted);
                }
                self.service.commit_offsets(offsets);
                self.answer(msg, LogPayload::CommitOffsetsOk)
            },
            LogPayload::ListCommittedOffsets { keys } => {
                if self.sender.ids_left() < 1 {
                    return Err(NodeError::IdsExhausted);
                }
                let offsets = self.service.list_committed_offsets(keys);
                self.answer(msg, LogPayload::ListCommittedOffsetsOk { offsets })
            },
            _ => Err(NodeError::UnsupportedType),
        }
    }

    /// Handles an inbound envelope. A `send` reads the system clock for
    /// its offset.
    pub fn handle(&mut self, msg: &LogMessage) -> (r: Result<Vec<LogMessage>, NodeError>)
        requires
            old(self)@.wf(),
        ensures
            final(self)@.wf(),
            exists|now: Offset|
                meets(r, old(self)@, final(self)@, #[trigger] old(self)@.handle_at(msg@, now)),
    {
        let now: Offset = match &msg.body.fields {
            LogPayload::Send { .. } => clock_micros(),
            _ => 0,
        };
        self.handle_at(msg, now)
    }
}

/// `later` holds every log of `earlier`, each with its entries in place
/// and possibly more after them.
pub open spec fn extends(earlier: LogServiceView, later: LogServiceView) -> bool {
    forall|k: Seq<char>| #[trigger]
        earlier.logs.contains_key(k) ==> later.logs.contains_key(k) && earlier.logs[k].is_prefix_of(
            later.logs[k],
        )
}

/// Every state extends itself, and what extends an extension extends
/// the original. Sends extend the state, and polls and commits leave
/// the logs as they are.
pub proof fn law_extends(a: LogServiceView, b: LogServiceView, c: LogServiceView)
    ensures
        extends(a, a),
        extends(a, b) && extends(b, c) ==> extends(a, c),
        forall|offsets: Map<Seq<char>, Offset>| #[trigger]
            a.commit_offsets(offsets).logs == a.logs,
{
    assert forall|k: Seq<char>| #[trigger] a.logs.contains_key(k) implies a.logs[k].is_prefix_of(
        a.logs[k],
    ) by {
        assert(a.logs[k].subrange(0, a.logs[k].len() as int) =~= a.logs[k]);
    }
    if extends(a, b) && extends(b, c) {
        assert forall|k: Seq<char>| #[trigger] a.logs.contains_key(k) implies c.logs.contains_key(k)
            && a.logs[k].is_prefix_of(c.logs[k]) by {
            assert(b.logs.contains_key(k));
            let (x, y, z) = (a.logs[k], b.logs[k], c.logs[k]);
            assert(x =~= y.subrange(0, x.len() as int));
            assert(y =~= z.subrange(0, y.len() as int));
            assert(x =~= z.subrange(0, x.len() as int));
        }
    }
}

/// In a log with ascending offsets, the first index at or after an
/// offset has only smaller offsets before it, and offsets of at least
/// that offset from it on.
pub proof fn lemma_first_at_or_after_splits<T>(s: Seq<(Offset, T)>, offset: Offset)
    requires
        offsets_ascending(s),
    ensures
        0 <= first_at_or_after(s, offset) <= s.len(),
        forall|i: int| 0 <= i < first_at_or_after(s, offset) ==> s[i].0 < offset,
        forall|i: int| first_at_or_after(s, offset) <= i < s.len() ==> s[i].0 >= offset,
    decreases s.len(),
{
    if s.len() == 0 || s[0].0 >= offset {
    } else {
        let tail = s.subrange(1, s.len() as int);
        assert forall|i: int, j: int| 0 <= i <= j < tail.len() implies tail[i].0 <= tail[j].0 by {
            assert(tail[i] == s[i + 1] && tail[j] == s[j + 1]);
        }
        lemma_first_at_or_after_splits(tail, offset);
        let r = first_at_or_after(tail, offset);
        assert forall|i: int| 0 <= i < r + 1 implies s[i].0 < offset by {
            if i > 0 {
                assert(tail[i - 1] == s[i]);
            }
        }
        assert forall|i: int| r + 1 <= i < s.len() implies s[i].0 >= offset by {
            assert(tail[i - 1] == s[i]);
        }
    }
}

/// A send keeps every entry that is there, appends the new entry to the
/// log of its key, and gives it an offset above every offset of that log.
pub proof fn law_send_appends(s: LogServiceView, key: Seq<char>, entry: Entry, now: Offset)
    requires
        s.wf(),
        s.send_at(key, entry, now) is Ok,
    ensures
        ({
            let (after, offset) = s.send_at(key, entry, now)->Ok_0;
            &&& after.wf()
            &&& extends(s, after)
            &&& after.commits == s.commits
            &&& after.log_of(key) == s.log_of(key).push((offset, entry))
            &&& forall|i: int| 0 <= i < s.log_of(key).len() ==> s.log_of(key)[i].0 < offset
            &&& forall|k: Seq<char>| k != key ==> after.log_of(k) == s.log_of(k)
        }),
{
    let (after, offset) = s.send_at(key, entry, now)->Ok_0;
    let log = s.log_of(key);
    assert(s.logs.contains_key(key) ==> offsets_increasing(log));
    assert forall|i: int| 0 <= i < log.len() implies log[i].0 < offset by {
        if i < log.len() - 1 {
            assert(log[i].0 < log[log.len() - 1].0);
        }
    }
    assert forall|k: Seq<char>| #[trigger] s.logs.contains_key(k) implies after.logs.contains_key(k)
        && s.logs[k].is_prefix_of(after.logs[k]) by {
        if k == key {
            assert(log.push((offset, entry)).subrange(0, log.len() as int) =~= log);
        } else {
            assert(s.logs[k].subrange(0, s.logs[k].len() as int) =~= s.logs[k]);
        }
    }
}

/// Offsets of one key strictly increase from send to send, whatever is
/// sent, polled or committed in between.
pub proof fn law_offsets_increase(
    s: LogServiceView,
    key: Seq<char>,
    first: Entry,
    now: Offset,
    later: LogServiceView,
    second: Entry,
    later_now: Offset,
)
    requires
        s.wf(),
        s.send_at(key, first, now) is Ok,
        later.wf(),
        extends(s.send_at(key, first, now)->Ok_0.0, later),
        later.send_at(key, second, later_now) is Ok,
    ensures
        s.send_at(key, first, now)->Ok_0.1 < later.send_at(key, second, later_now)->Ok_0.1,
{
    let (sent, offset) = s.send_at(key, first, now)->Ok_0;
    law_send_appends(s, key, first, now);
    law_send_appends(later, key, second, later_now);
    assert(sent.logs.contains_key(key));
    let at = s.log_of(key).len() as int;
    assert(sent.logs[key][at] == (offset, first));
    assert(later.logs[key].subrange(0, sent.logs[key].len() as int)[at] == later.logs[key][at]);
}

/// An entry that was sent comes first in every later poll of its key
/// from the offset that the send returned.
pub proof fn law_sent_entry_is_polled(
    s: LogServiceView,
    key: Seq<char>,
    entry: Entry,
    now: Offset,
    later: LogServiceView,
    offsets: Map<Seq<char>, Offset>,
)
    requires
        s.wf(),
        s.send_at(key, entry, now) is Ok,
        later.wf(),
        extends(s.send_at(key, entry, now)->Ok_0.0, later),
        offsets.contains_key(key),
        offsets[key] == s.send_at(key, entry, now)->Ok_0.1,
    ensures
        later.poll(offsets).contains_key(key),
        later.poll(offsets)[key].len() > 0,
        later.poll(offsets)[key][0] == (offsets[key], entry),
{
    let (sent, offset) = s.send_at(key, entry, now)->Ok_0;
    law_send_appends(s, key, entry, now);
    assert(sent.logs.contains_key(key));
    let at = s.log_of(key).len() as int;
    let log = later.logs[key];
    assert(sent.logs[key][at] == (offset, entry));
    assert(log.subrange(0, sent.logs[key].len() as int)[at] == log[at]);
    assert forall|i: int| 0 <= i < at implies log[i].0 < offset by {
        assert(log[i].0 < log[at].0);
    }
    lemma_first_at_or_after(log, offset, at);
}

/// A poll never returns an entry below the offset asked for, nor more
/// than `POLL_CAP` entries. It returns everything from the start, up to
/// the cap, if the offset asked for is at or before the first entry, and
/// nothing if it is after the last.
pub proof fn law_poll_window(log: Seq<(Offset, Entry)>, from: Offset)
    requires
        offsets_increasing(log),
    ensures
        window(log, from).len() <= POLL_CAP,
        forall|i: int| 0 <= i < window(log, from).len() ==> window(log, from)[i].0 >= from,
        log.len() > 0 && from <= log[0].0 ==> window(log, from).len() > 0 && window(log, from)[0]
            == log[0],
        log.len() > 0 && from > log.last().0 ==> window(log, from).len() == 0,
{
    lemma_first_at_or_after_splits(log, from);
    let start = first_at_or_after(log, from);
    if log.len() > 0 && from > log.last().0 {
        if start < log.len() {
            assert(log[start].0 <= log[log.len() - 1].0);
        }
    }
}

/// A poll starts at the first entry whose offset is at least the offset
/// asked for: if entry `i` is that entry, the poll returns the entries
/// from `i` on, up to the cap.
pub proof fn law_poll_starts_at(log: Seq<(Offset, Entry)>, from: Offset, i: int)
    requires
        offsets_increasing(log),
        0 <= i < log.len(),
        log[i].0 >= from,
        i == 0 || log[i - 1].0 < from,
    ensures
        window(log, from) == log.subrange(
            i,
            if i + POLL_CAP <= log.len() {
                i + POLL_CAP
            } else {
                log.len() as int
            },
        ),
        window(log, from)[0] == log[i],
{
    assert forall|j: int| 0 <= j < i implies log[j].0 < from by {
        if j < i - 1 {
            assert(log[j].0 < log[i - 1].0);
        }
    }
    lemma_first_at_or_after(log, from, i);
}

/// What was committed is listed: a key that is asked for is listed with
/// the offset of the last commit that named it, and a key that no commit
/// named is left out.
pub proof fn law_commit_round_trip(
    s: LogServiceView,
    offsets: Map<Seq<char>, Offset>,
    keys: Seq<Seq<char>>,
    key: Seq<char>,
)
    ensures
        ({
            let listed = s.commit_offsets(offsets).list_committed_offsets(keys);
            &&& keys.contains(key) && offsets.contains_key(key) ==> listed.contains_key(key)
                && listed[key] == offsets[key]
            &&& keys.contains(key) && !offsets.contains_key(key) && s.commits.contains_key(key)
                ==> listed.contains_key(key) && listed[key] == s.commits[key]
            &&& !offsets.contains_key(key) && !s.commits.contains_key(key) ==> !listed.contains_key(
                key,
            )
            &&& !keys.contains(key) ==> !listed.contains_key(key)
        }),
{
}

/// The map of the first `i + 1` entries is the map of the first `i`
/// entries with entry `i` added.
proof fn lemma_take_push<V>(keys: Seq<Seq<char>>, values: Seq<V>, i: int)
    requires
        keys.no_duplicates(),
        keys.len() == values.len(),
        0 <= i < keys.len(),
    ensures
        map_of(keys.take(i + 1), values.take(i + 1)) == map_of(keys.take(i), values.take(i)).insert(
            keys[i],
            values[i],
        ),
        !map_of(keys.take(i), values.take(i)).contains_key(keys[i]),
{
    assert(keys.take(i + 1) =~= keys.take(i).push(keys[i]));
    assert(values.take(i + 1) =~= values.take(i).push(values[i]));
    if keys.take(i).contains(keys[i]) {
        let j = keys.take(i).index_of(keys[i]);
        assert(keys[j] == keys[i]);
    }
    lemma_map_of_push(keys.take(i), values.take(i), keys[i], values[i]);
}

} // verus!
