//! The chat history: every message ever posted, keyed by a strictly increasing
//! timestamp, with the spam, excessive-spam and screaming detectors that run
//! when a message is added.
use crate::chat::{censor_text, censored, is_screaming, sanitize_chat, sanitized, screaming};
use indexmap::IndexMap;
use vstd::prelude::*;

verus! {

/// Window of the spam detector (15 s, in nanoseconds).
pub const SPAM_WINDOW: i64 = 15_000_000_000;

/// Messages an account may have in the spam window.
pub const SPAM_LIMIT: usize = 3;

/// Window of the excessive-spam detector (60 s, in nanoseconds).
pub const EXCESSIVE_SPAM_WINDOW: i64 = 60_000_000_000;

/// Messages in the excessive-spam window, the new one included, at which an
/// account is muted.
pub const EXCESSIVE_SPAM_LIMIT: usize = 30;

#[verifier::external_type_specification]
#[verifier::external_body]
#[verifier::reject_recursive_types(K)]
#[verifier::reject_recursive_types(V)]
#[verifier::reject_recursive_types(S)]
pub struct ExIndexMap<K, V, S>(IndexMap<K, V, S>);

/// One stored chat message with what the pipeline derived from it.
#[derive(Clone, Debug)]
pub struct ChatMessage {
    pub message: String,
    /// Nanoseconds since the Unix epoch; also the message's key in the history.
    pub timestamp: i64,
    pub player_name: Option<String>,
    pub account_id: i32,
    pub discord_id: Option<String>,
    pub google_id: Option<String>,
    pub ip: Option<String>,
    pub is_escaped: bool,
    pub is_censored: bool,
    pub is_spam: bool,
    pub is_excessive_spam: bool,
    pub is_screaming: bool,
}

/// The identity a message is posted under.
#[derive(Clone, Debug)]
pub struct AccountInfo {
    pub account_id: i32,
    pub discord_id: Option<String>,
    pub google_id: Option<String>,
}

pub enum ChatError {
    Spam,
    ExcessiveSpam,
    Screaming,
}

pub enum ChatResult {
    /// The censored text, and whether it counts as spam.
    Accepted((String, bool)),
    Rejected(ChatError),
    NotFound,
}

/// The entries of a history map, in insertion order.
pub uninterp spec fn entries_of(m: IndexMap<i64, ChatMessage>) -> Seq<(i64, ChatMessage)>;

/// Relies on `IndexMap::new`: the new map is empty.
#[verifier::external_body]
fn map_new() -> (r: IndexMap<i64, ChatMessage>)
    ensures
        entries_of(r).len() == 0,
{
    IndexMap::new()
}

/// Relies on `IndexMap::len`: the number of entries.
#[verifier::external_body]
fn map_len(m: &IndexMap<i64, ChatMessage>) -> (r: usize)
    ensures
        r == entries_of(*m).len(),
{
    m.len()
}

/// Relies on `IndexMap::get_index`: the entry at a position in insertion order.
#[verifier::external_body]
fn map_get_index(m: &IndexMap<i64, ChatMessage>, i: usize) -> (r: Option<(&i64, &ChatMessage)>)
    ensures
        match r {
            Some((k, v)) => i < entries_of(*m).len() && *k == entries_of(*m)[i as int].0 && *v
                == entries_of(*m)[i as int].1,
            None => i >= entries_of(*m).len(),
        },
{
    m.get_index(i)
}

/// Relies on `IndexMap::insert`: a new key goes last in order; an existing key
/// keeps its place and gets the new value, and the old value is returned.
#[verifier::external_body]
fn map_insert(m: &mut IndexMap<i64, ChatMessage>, k: i64, v: ChatMessage) -> (r: Option<
    ChatMessage,
>)
    ensures
        (forall|i: int| 0 <= i < entries_of(*old(m)).len() ==> entries_of(*old(m))[i].0 != k)
            ==> entries_of(*final(m)) == entries_of(*old(m)).push((k, v)) && r is None,
        forall|i: int|
            0 <= i < entries_of(*old(m)).len() && entries_of(*old(m))[i].0 == k ==> entries_of(
                *final(m),
            ) == entries_of(*old(m)).update(i, (k, v)) && r == Some(entries_of(*old(m))[i].1),
{
    m.insert(k, v)
}

/// Relies on chrono's `Utc::now` and `DateTime::timestamp_nanos_opt`: the wall
/// clock in nanoseconds, or `None` for a time after what an `i64` holds
/// (about the year 2262). `Utc::now` panics when the system clock reads a time
/// before 1970, which is a fault of the machine, not an input.
#[verifier::external_body]
fn wall_clock_nanos() -> (r: Option<i64>) {
    chrono::Utc::now().timestamp_nanos_opt()
}

/// The wall clock in nanoseconds since the Unix epoch; the largest value
/// when the clock lies beyond what an `i64` holds.
pub fn now_nanos() -> (r: i64) {
    match wall_clock_nanos() {
        Some(t) => t,
        None => i64::MAX,
    }
}

pub open spec fn keys_increasing(e: Seq<(i64, ChatMessage)>) -> bool {
    forall|i: int, j: int| 0 <= i < j < e.len() ==> e[i].0 < e[j].0
}

/// Start of a window of `w` nanoseconds that ends at `now`.
pub open spec fn window_start(now: i64, w: i64) -> int {
    if now - w < i64::MIN {
        i64::MIN as int
    } else {
        now - w
    }
}

/// Messages of `account` with a key at or after `since`; with `non_spam_only`,
/// only those not marked as spam.
pub open spec fn count_recent(
    e: Seq<(i64, ChatMessage)>,
    since: int,
    account: i32,
    non_spam_only: bool,
) -> nat
    decreases e.len(),
{
    if e.len() == 0 {
        0
    } else {
        let last = e.last();
        count_recent(e.drop_last(), since, account, non_spam_only) + if last.0 >= since
            && last.1.account_id == account && !(non_spam_only && last.1.is_spam) {
            1nat
        } else {
            0nat
        }
    }
}

/// Whether a message stored under `key` goes after every entry of `e`.
pub open spec fn fresh_key(e: Seq<(i64, ChatMessage)>, key: i64) -> bool {
    e.len() == 0 || key > e.last().0
}

/// Every entry marked as spam has at least three earlier entries of its
/// account, not marked as spam, in the fifteen seconds up to its key.
pub open spec fn spam_justified(e: Seq<(i64, ChatMessage)>) -> bool {
    forall|i: int|
        0 <= i < e.len() && (#[trigger] e[i]).1.is_spam ==> count_recent(
            e.take(i),
            window_start(e[i].0, SPAM_WINDOW),
            e[i].1.account_id,
            true,
        ) >= SPAM_LIMIT
}

/// The key a message posted at `now` is stored under: `now`, or one past the
/// newest key when the clock has not moved past it.
pub open spec fn next_key(e: Seq<(i64, ChatMessage)>, now: i64) -> i64 {
    if e.len() == 0 || now > e.last().0 {
        now
    } else if e.last().0 < i64::MAX {
        (e.last().0 + 1) as i64
    } else {
        i64::MAX
    }
}

/// The record stored for a message.
pub open spec fn record_of(
    stored_text: String,
    message: Seq<char>,
    key: i64,
    account: AccountInfo,
    player_name: String,
    ip: String,
    is_spam: bool,
    is_excessive_spam: bool,
) -> ChatMessage {
    ChatMessage {
        message: stored_text,
        timestamp: key,
        player_name: Some(player_name),
        account_id: account.account_id,
        discord_id: account.discord_id,
        google_id: account.google_id,
        ip: Some(ip),
        is_escaped: sanitized(message) != message,
        is_censored: censored(sanitized(message)) != sanitized(message),
        is_spam,
        is_excessive_spam,
        is_screaming: screaming(message),
    }
}

/// The chat history.
pub struct ChatHistory {
    entries: IndexMap<i64, ChatMessage>,
}

impl ChatHistory {
    pub closed spec fn view(&self) -> Seq<(i64, ChatMessage)> {
        entries_of(self.entries)
    }

    /// Keys strictly increase, and every message marked as spam follows at
    /// least three messages of its account in the fifteen seconds before it
    /// that were not spam.
    pub open spec fn wf(&self) -> bool {
        keys_increasing(self.view()) && spam_justified(self.view())
    }

    fn is_fresh(&self, key: i64) -> (r: bool)
        ensures
            r == fresh_key(self.view(), key),
    {
        let n = map_len(&self.entries);
        if n == 0 {
            return true;
        }
        match map_get_index(&self.entries, n - 1) {
            Some((k, _)) => key > *k,
            None => true,
        }
    }

    pub fn new() -> (r: ChatHistory)
        ensures
            r.wf(),
            r.view().len() == 0,
    {
        ChatHistory { entries: map_new() }
    }

    pub fn len(&self) -> (r: usize)
        ensures
            r == self.view().len(),
    {
        map_len(&self.entries)
    }

    /// The message at position `i`, oldest first.
    pub fn get(&self, i: usize) -> (r: Option<&ChatMessage>)
        ensures
            match r {
                Some(m) => i < self.view().len() && *m == self.view()[i as int].1,
                None => i >= self.view().len(),
            },
    {
        match map_get_index(&self.entries, i) {
            Some((_, m)) => Some(m),
            None => None,
        }
    }

    /// Messages of `account` stored at or after `since` (only those not marked
    /// as spam, with `non_spam_only`).
    pub fn count_recent(&self, since: i64, account: i32, non_spam_only: bool) -> (r: usize)
        ensures
            r == count_recent(self.view(), since as int, account, non_spam_only),
    {
        let n = map_len(&self.entries);
        let mut count: usize = 0;
        let mut i: usize = 0;
        while i < n
            invariant
                n == self.view().len(),
                i <= n,
                count <= i,
                count == count_recent(self.view().take(i as int), since as int, account, non_spam_only),
            decreases n - i,
        {
            let (k, m) = match map_get_index(&self.entries, i) {
                Some(e) => e,
                None => {
                    return count;
                },
            };
            proof {
                assert(self.view().take(i as int + 1).drop_last() == self.view().take(i as int));
            }
            if *k >= since && m.account_id == account && !(non_spam_only && m.is_spam) {
                count = count + 1;
            }
            i = i + 1;
        }
        proof {
            assert(self.view().take(n as int) == self.view());
        }
        count
    }

    fn next_key(&self, now: i64) -> (r: i64)
        ensures
            r == next_key(self.view(), now),
    {
        let n = map_len(&self.entries);
        if n == 0 {
            return now;
        }
        let last = match map_get_index(&self.entries, n - 1) {
            Some((k, _)) => *k,
            None => {
                return now;
            },
        };
        if now > last {
            now
        } else if last < i64::MAX {
            last + 1
        } else {
            i64::MAX
        }
    }

    /// Runs a message posted at `now` through the pipeline and stores it.
    ///
    /// The text is sanitized and censored; the message is spam when the
    /// account already has three non-spam messages in the last 15 s, and
    /// excessive spam when it has thirty messages in the last 60 s.
    /// `f` is the history `e0` after `message` was posted at `now`, and `r`
    /// is the pipeline's answer: the message is stored under the next key
    /// with what the detectors found, unless no later key is left.
    pub open spec fn added_at(
        e0: Seq<(i64, ChatMessage)>,
        f: Seq<(i64, ChatMessage)>,
        message: Seq<char>,
        account: AccountInfo,
        player_name: String,
        ip: String,
        now: i64,
        r: ChatResult,
    ) -> bool {
        let e = e0;
        let key = next_key(e, now);
        let spam = count_recent(e, window_start(key, SPAM_WINDOW), account.account_id, true)
            >= SPAM_LIMIT;
        let excessive = count_recent(
            e,
            window_start(key, EXCESSIVE_SPAM_WINDOW),
            account.account_id,
            false,
        ) + 1 >= EXCESSIVE_SPAM_LIMIT;
        let last = f.last().1;
        &&& fresh_key(e, key) ==> f.drop_last() == e && f.len()
            == e.len() + 1 && f.last().0 == key && last.message@ == message
            && last == record_of(last.message, message, key, account, player_name, ip, spam, excessive)
        &&& !fresh_key(e, key) ==> f == e
        &&& match r {
            ChatResult::Rejected(ChatError::ExcessiveSpam) => excessive,
            ChatResult::Rejected(ChatError::Spam) => !excessive && spam,
            ChatResult::Rejected(ChatError::Screaming) => !excessive && !spam && screaming(
                message,
            ),
            ChatResult::Accepted((text, is_spam)) => !excessive && !spam && !screaming(message)
                && text@ == censored(sanitized(message)) && !is_spam,
            ChatResult::NotFound => false,
        }
    }

    pub fn add_message_at(
        &mut self,
        message: &str,
        account: AccountInfo,
        player_name: String,
        ip: String,
        now: i64,
    ) -> (r: ChatResult)
        requires
            old(self).wf(),
        ensures
            final(self).wf(),
            Self::added_at(old(self).view(), final(self).view(), message@, account, player_name, ip, now, r),
    {
        let escaped = sanitize_chat(message);
        let raw = message.to_owned();
        let is_escaped = !(escaped == raw);
        let censored_message = censor_text(escaped.as_str());
        let is_censored = !(censored_message == escaped);
        let account_id = account.account_id;

        let key = self.next_key(now);
        let spam_since = if key < i64::MIN + SPAM_WINDOW {
            i64::MIN
        } else {
            key - SPAM_WINDOW
        };
        let is_spam = self.count_recent(spam_since, account_id, true) >= SPAM_LIMIT;
        let excessive_since = if key < i64::MIN + EXCESSIVE_SPAM_WINDOW {
            i64::MIN
        } else {
            key - EXCESSIVE_SPAM_WINDOW
        };
        let is_excessive_spam = self.count_recent(excessive_since, account_id, false)
            >= EXCESSIVE_SPAM_LIMIT - 1;
        let is_screaming = is_screaming(message);

        let fresh = self.is_fresh(key);
        let record = ChatMessage {
            message: raw,
            timestamp: key,
            player_name: Some(player_name),
            account_id,
            discord_id: account.discord_id,
            google_id: account.google_id,
            ip: Some(ip),
            is_escaped,
            is_censored,
            is_spam,
            is_excessive_spam,
            is_screaming,
        };
        let ghost e = self.view();
        let ghost rec = record;
        if fresh {
            let _ = map_insert(&mut self.entries, key, record);
            proof {
                assert forall|i: int| 0 <= i < e.len() implies e[i].0 != key by {
                    if i < e.len() - 1 {
                        assert(e[i].0 < e[e.len() - 1].0);
                    }
                }
                assert(self.view() == e.push((key, rec)));
                assert(self.view().drop_last() == e);
                assert forall|i: int, j: int|
                    0 <= i < j < self.view().len() implies self.view()[i].0
                    < self.view()[j].0 by {
                    if j == e.len() && i < e.len() - 1 {
                        assert(e[i].0 < e[e.len() - 1].0);
                    }
                }
                assert forall|i: int|
                    0 <= i < self.view().len() && (#[trigger] self.view()[i]).1.is_spam implies count_recent(
                    self.view().take(i),
                    window_start(self.view()[i].0, SPAM_WINDOW),
                    self.view()[i].1.account_id,
                    true,
                ) >= SPAM_LIMIT by {
                    if i < e.len() {
                        assert(self.view().take(i) == e.take(i));
                        assert(e[i] == self.view()[i]);
                    } else {
                        assert(self.view().take(i) == e);
                    }
                }
            }
        }
        if is_excessive_spam {
            ChatResult::Rejected(ChatError::ExcessiveSpam)
        } else if is_spam {
            ChatResult::Rejected(ChatError::Spam)
        } else if is_screaming {
            ChatResult::Rejected(ChatError::Screaming)
        } else {
            ChatResult::Accepted((censored_message, false))
        }
    }

    /// Runs a message posted now through the pipeline and stores it; see
    /// `add_message_at`.
    pub fn add_message(
        &mut self,
        message: &str,
        account: AccountInfo,
        player_name: String,
        ip: String,
    ) -> (r: ChatResult)
        requires
            old(self).wf(),
        ensures
            final(self).wf(),
            exists|now: i64|
                Self::added_at(old(self).view(), final(self).view(), message@, account, player_name, ip, now, r),
    {
        let now = now_nanos();
        self.add_message_at(message, account, player_name, ip, now)
    }
}

/// A query of the chat log. Times are nanoseconds since the Unix epoch.
pub struct GetChat {
    pub from: Option<i64>,
    pub to: Option<i64>,
    pub limit: Option<u32>,
    pub player_name: Option<String>,
    pub discord_id: Option<String>,
    pub google_id: Option<String>,
}

/// Number of messages a query returns at most when it gives no limit.
pub const DEFAULT_CHAT_LIMIT: u32 = 100;

pub open spec fn opt_view(o: Option<String>) -> Option<Seq<char>> {
    match o {
        Some(s) => Some(s@),
        None => None,
    }
}

/// Whether a key lies in the query's time range: after `from` and before
/// `to`, each when given.
pub open spec fn in_window(q: GetChat, key: i64) -> bool {
    (q.from is None || key > q.from->0) && (q.to is None || key < q.to->0)
}

/// Whether a message matches the query's filters; a query naming both a
/// Discord and a Google account matches nothing.
pub open spec fn query_matches(q: GetChat, m: ChatMessage) -> bool {
    &&& q.player_name is Some ==> opt_view(m.player_name) == opt_view(q.player_name)
    &&& !(q.discord_id is Some && q.google_id is Some)
    &&& q.discord_id is Some ==> opt_view(m.discord_id) == opt_view(q.discord_id)
    &&& q.google_id is Some ==> opt_view(m.google_id) == opt_view(q.google_id)
}

pub open spec fn picks(e: Seq<(i64, ChatMessage)>, q: GetChat, i: int) -> bool {
    in_window(q, e[i].0) && query_matches(q, e[i].1)
}

/// Indices of the entries at `i` or later that the query picks, newest first.
pub open spec fn selected_from(e: Seq<(i64, ChatMessage)>, q: GetChat, i: int) -> Seq<int>
    decreases e.len() - i,
{
    if i >= e.len() || i < 0 {
        Seq::empty()
    } else if picks(e, q, i) {
        selected_from(e, q, i + 1).push(i)
    } else {
        selected_from(e, q, i + 1)
    }
}

/// The most messages a query returns.
pub open spec fn query_limit(q: GetChat) -> nat {
    match q.limit {
        Some(l) => if l == 0 { 1 } else { l as nat },
        None => DEFAULT_CHAT_LIMIT as nat,
    }
}

/// `a` is `b` as the log shows it: names and platform ids only with
/// `with_player_info`, the address only with `with_ip`.
pub open spec fn shown_as(a: ChatMessage, b: ChatMessage, with_player_info: bool, with_ip: bool) -> bool {
    &&& a.message@ == b.message@
    &&& a.timestamp == b.timestamp
    &&& a.account_id == b.account_id
    &&& a.is_escaped == b.is_escaped
    &&& a.is_censored == b.is_censored
    &&& a.is_spam == b.is_spam
    &&& a.is_excessive_spam == b.is_excessive_spam
    &&& a.is_screaming == b.is_screaming
    &&& opt_view(a.player_name) == (if with_player_info { opt_view(b.player_name) } else { None })
    &&& opt_view(a.discord_id) == (if with_player_info { opt_view(b.discord_id) } else { None })
    &&& opt_view(a.google_id) == (if with_player_info { opt_view(b.google_id) } else { None })
    &&& opt_view(a.ip) == (if with_ip { opt_view(b.ip) } else { None })
}

proof fn lemma_selected_prefix(e: Seq<(i64, ChatMessage)>, q: GetChat, i: int, j: int)
    requires
        0 <= i <= j <= e.len(),
    ensures
        selected_from(e, q, j).len() <= selected_from(e, q, i).len(),
        selected_from(e, q, i).take(selected_from(e, q, j).len() as int) == selected_from(e, q, j),
    decreases j - i,
{
    if i < j {
        lemma_selected_prefix(e, q, i + 1, j);
        let a = selected_from(e, q, i + 1);
        let b = selected_from(e, q, j);
        if picks(e, q, i) {
            assert(selected_from(e, q, i) == a.push(i));
            assert(a.push(i).take(b.len() as int) == a.take(b.len() as int));
        }
    }
}

fn copy_opt(o: &Option<String>) -> (r: Option<String>)
    ensures
        opt_view(r) == opt_view(*o),
{
    match o {
        Some(s) => Some(s.clone()),
        None => None,
    }
}

fn opt_eq(a: &Option<String>, b: &Option<String>) -> (r: bool)
    ensures
        r == (opt_view(*a) == opt_view(*b)),
{
    match (a, b) {
        (Some(x), Some(y)) => *x == *y,
        (None, None) => true,
        _ => false,
    }
}

fn shown(m: &ChatMessage, with_player_info: bool, with_ip: bool) -> (r: ChatMessage)
    ensures
        shown_as(r, *m, with_player_info, with_ip),
{
    ChatMessage {
        message: m.message.clone(),
        timestamp: m.timestamp,
        player_name: if with_player_info { copy_opt(&m.player_name) } else { None },
        account_id: m.account_id,
        discord_id: if with_player_info { copy_opt(&m.discord_id) } else { None },
        google_id: if with_player_info { copy_opt(&m.google_id) } else { None },
        ip: if with_ip { copy_opt(&m.ip) } else { None },
        is_escaped: m.is_escaped,
        is_censored: m.is_censored,
        is_spam: m.is_spam,
        is_excessive_spam: m.is_excessive_spam,
        is_screaming: m.is_screaming,
    }
}

fn picks_exec(q: &GetChat, key: i64, m: &ChatMessage) -> (r: bool)
    ensures
        r == (in_window(*q, key) && query_matches(*q, *m)),
{
    let after_from = match q.from {
        Some(f) => key > f,
        None => true,
    };
    let before_to = match q.to {
        Some(t) => key < t,
        None => true,
    };
    let in_range = after_from && before_to;
    if !in_range {
        return false;
    }
    if q.player_name.is_some() && !opt_eq(&m.player_name, &q.player_name) {
        return false;
    }
    if q.discord_id.is_some() && q.google_id.is_some() {
        return false;
    }
    if q.discord_id.is_some() && !opt_eq(&m.discord_id, &q.discord_id) {
        return false;
    }
    if q.google_id.is_some() && !opt_eq(&m.google_id, &q.google_id) {
        return false;
    }
    true
}

impl ChatHistory {
    /// The newest messages that the query picks, at most its limit, oldest
    /// first, shown with or without player details and addresses.
    pub fn get_messages(&self, query: GetChat, with_player_info: bool, with_ip: bool) -> (r: Vec<ChatMessage>)
        ensures
            ({
                let sel = selected_from(self.view(), query, 0);
                let n = if sel.len() < query_limit(query) { sel.len() } else { query_limit(query) };
                &&& r@.len() == n
                &&& forall|k: int|
                    0 <= k < n ==> shown_as(
                        #[trigger] r@[k],
                        self.view()[sel[n - 1 - k]].1,
                        with_player_info,
                        with_ip,
                    )
            }),
    {
        let max: usize = match query.limit {
            Some(l) => if l == 0 { 1 } else { l as usize },
            None => DEFAULT_CHAT_LIMIT as usize,
        };
        let ghost e = self.view();
        let len = map_len(&self.entries);
        let mut newest: Vec<ChatMessage> = Vec::new();
        let mut i: usize = len;
        while i > 0 && newest.len() < max
            invariant
                len == e.len(),
                e == self.view(),
                i <= len,
                max == query_limit(query),
                newest@.len() == selected_from(e, query, i as int).len(),
                newest@.len() <= max,
                forall|k: int|
                    0 <= k < newest@.len() ==> shown_as(
                        #[trigger] newest@[k],
                        e[selected_from(e, query, i as int)[k]].1,
                        with_player_info,
                        with_ip,
                    ),
            decreases i,
        {
            i = i - 1;
            let (key, m) = match map_get_index(&self.entries, i) {
                Some(x) => x,
                None => {
                    return Vec::new();
                },
            };
            if picks_exec(&query, *key, m) {
                let ghost prev = newest@;
                newest.push(shown(m, with_player_info, with_ip));
                proof {
                    assert(selected_from(e, query, i as int) == selected_from(e, query, i + 1).push(i as int));
                    assert forall|k: int| 0 <= k < newest@.len() implies shown_as(
                        #[trigger] newest@[k],
                        e[selected_from(e, query, i as int)[k]].1,
                        with_player_info,
                        with_ip,
                    ) by {
                        if k < prev.len() {
                            assert(newest@[k] == prev[k]);
                        }
                    }
                }
            }
        }
        proof {
            let sel = selected_from(e, query, 0);
            lemma_selected_prefix(e, query, 0, i as int);
            if i == 0 {
                assert(sel.take(sel.len() as int) == sel);
            }
        }
        let ghost sel = selected_from(e, query, 0);
        let ghost cur = selected_from(e, query, i as int);
        let n = newest.len();
        let mut out: Vec<ChatMessage> = Vec::new();
        let mut k: usize = 0;
        while k < n
            invariant
                n == newest@.len(),
                k <= n,
                out@.len() == k,
                cur.len() == n,
                n <= sel.len(),
                sel.take(n as int) == cur,
                forall|j: int|
                    0 <= j < n ==> shown_as(#[trigger] newest@[j], e[cur[j]].1, with_player_info, with_ip),
                forall|j: int|
                    0 <= j < k ==> shown_as(#[trigger] out@[j], e[sel[n - 1 - j]].1, with_player_info, with_ip),
            decreases n - k,
        {
            let m = shown(&newest[n - 1 - k], true, true);
            proof {
                assert(sel.take(n as int)[n - 1 - k] == sel[n - 1 - k]);
            }
            out.push(m);
            k = k + 1;
        }
        out
    }
}

} // verus!
