//! Retained message store and MQTT topic matching.

use dashmap::DashMap;
use vstd::prelude::*;

verus! {

broadcast use vstd::string::group_string_axioms;

/// The characters of a string, in order.
pub fn chars_of(s: &str) -> (res: Vec<char>)
    ensures
        res@ == s@,
{
    let mut out: Vec<char> = Vec::new();
    for c in it: s.chars()
        invariant
            out@ == it.seq().take(it.index() as int),
    {
        out.push(c);
    }
    out
}

/// The levels of a topic: its text cut at every '/' (an empty text has one empty level).
pub open spec fn split_levels(s: Seq<char>) -> Seq<Seq<char>>
    decreases s.len(),
{
    if s.len() == 0 {
        seq![Seq::<char>::empty()]
    } else {
        let prev = split_levels(s.drop_last());
        if s.last() == '/' {
            prev.push(Seq::<char>::empty())
        } else {
            prev.update(prev.len() - 1, prev.last().push(s.last()))
        }
    }
}

/// A text always has at least one level.
pub proof fn lemma_split_levels_nonempty(s: Seq<char>)
    ensures
        split_levels(s).len() >= 1,
    decreases s.len(),
{
    if s.len() > 0 {
        lemma_split_levels_nonempty(s.drop_last());
    }
}

/// Whether pattern levels match topic levels: '+' matches one level, '#' the rest.
pub open spec fn levels_match(p: Seq<Seq<char>>, t: Seq<Seq<char>>) -> bool
    decreases p.len(),
{
    if p.len() == 0 || t.len() == 0 {
        p.len() == 0 && t.len() == 0
    } else if p[0] == seq!['#'] {
        true
    } else if p[0] == seq!['+'] || p[0] == t[0] {
        levels_match(p.drop_first(), t.drop_first())
    } else {
        false
    }
}

/// Whether a topic matches a pattern with MQTT wildcards.
pub open spec fn spec_topic_matches(pattern: Seq<char>, topic: Seq<char>) -> bool {
    levels_match(split_levels(pattern), split_levels(topic))
}

/// The texts of a list of levels.
pub open spec fn levels_view(v: Seq<Vec<char>>) -> Seq<Seq<char>> {
    v.map_values(|x: Vec<char>| x@)
}

/// Cut a text into its levels at every '/'.
fn split_on_slash(s: &Vec<char>) -> (res: Vec<Vec<char>>)
    ensures
        levels_view(res@) == split_levels(s@),
{
    let mut parts: Vec<Vec<char>> = Vec::new();
    let mut cur: Vec<char> = Vec::new();
    let mut i: usize = 0;
    while i < s.len()
        invariant
            i <= s.len(),
            levels_view(parts@).push(cur@) == split_levels(s@.take(i as int)),
        decreases s.len() - i,
    {
        let c = s[i];
        let ghost prefix = s@.take(i as int);
        let ghost before = levels_view(parts@);
        let ghost cur_before = cur@;
        assert(s@.take(i + 1).drop_last() == prefix);
        assert(s@.take(i + 1).last() == c);
        if c == '/' {
            parts.push(cur);
            cur = Vec::new();
            assert(levels_view(parts@) == before.push(cur_before));
        } else {
            cur.push(c);
            assert(levels_view(parts@) == before);
            assert(before.push(cur_before).update(before.len() as int, cur_before.push(c)) =~= before.push(cur@));
        }
        i = i + 1;
    }
    assert(s@.take(s.len() as int) == s@);
    parts.push(cur);
    assert(levels_view(parts@) =~= split_levels(s@));
    parts
}

/// Whether a level is exactly the one character `c`.
fn is_single(level: &Vec<char>, c: char) -> (res: bool)
    ensures
        res == (level@ == seq![c]),
{
    if level.len() == 1 && level[0] == c {
        assert(level@ =~= seq![c]);
        true
    } else {
        false
    }
}

/// Whether two levels hold the same characters.
fn same_level(a: &Vec<char>, b: &Vec<char>) -> (res: bool)
    ensures
        res == (a@ == b@),
{
    if a.len() != b.len() {
        return false;
    }
    let mut i: usize = 0;
    while i < a.len()
        invariant
            i <= a.len(),
            a.len() == b.len(),
            forall|j: int| 0 <= j < i ==> a@[j] == b@[j],
        decreases a.len() - i,
    {
        if a[i] != b[i] {
            return false;
        }
        i = i + 1;
    }
    assert(a@ =~= b@);
    true
}

/// Check whether a topic matches a pattern with wildcards: '+' matches one
/// level and '#' matches everything from its level on.
pub fn topic_matches(pattern: &str, topic: &str) -> (res: bool)
    ensures
        res == spec_topic_matches(pattern@, topic@),
{
    let p = split_on_slash(&chars_of(pattern));
    let t = split_on_slash(&chars_of(topic));
    let ghost pv = levels_view(p@);
    let ghost tv = levels_view(t@);
    let mut i: usize = 0;
    assert(pv.skip(0) == pv);
    assert(tv.skip(0) == tv);
    while i < p.len() && i < t.len()
        invariant
            i <= p.len(),
            i <= t.len(),
            pv == levels_view(p@),
            tv == levels_view(t@),
            pv == split_levels(pattern@),
            tv == split_levels(topic@),
            levels_match(pv, tv) == levels_match(pv.skip(i as int), tv.skip(i as int)),
        decreases p.len() - i,
    {
        let ghost ps = pv.skip(i as int);
        let ghost ts = tv.skip(i as int);
        assert(ps[0] == p@[i as int]@);
        assert(ts[0] == t@[i as int]@);
        if is_single(&p[i], '#') {
            return true;
        } else if is_single(&p[i], '+') || same_level(&p[i], &t[i]) {
            assert(ps.drop_first() == pv.skip(i + 1));
            assert(ts.drop_first() == tv.skip(i + 1));
            i = i + 1;
        } else {
            return false;
        }
    }
    i == p.len() && i == t.len()
}

/// Every topic matches itself when used as a pattern.
pub proof fn lemma_topic_matches_itself(topic: Seq<char>)
    ensures
        spec_topic_matches(topic, topic),
{
    lemma_levels_match_reflexive(split_levels(topic));
}

/// Level sequences match themselves.
pub proof fn lemma_levels_match_reflexive(p: Seq<Seq<char>>)
    ensures
        levels_match(p, p),
    decreases p.len(),
{
    if p.len() > 0 {
        lemma_levels_match_reflexive(p.drop_first());
    }
}

/// The pattern "#" matches every topic.
pub proof fn lemma_hash_matches_everything(topic: Seq<char>)
    ensures
        spec_topic_matches(seq!['#'], topic),
{
    let p = seq!['#'];
    assert(p.drop_last() =~= Seq::<char>::empty());
    assert(split_levels(Seq::<char>::empty()) == seq![Seq::<char>::empty()]);
    assert(split_levels(p).len() == 1);
    assert(split_levels(p)[0] =~= seq!['#']);
    lemma_split_levels_nonempty(topic);
}

/// No level is a wildcard: neither `+` nor `#`.
pub open spec fn no_wildcard_levels(levels: Seq<Seq<char>>) -> bool {
    forall|i: int| 0 <= i < levels.len() ==> levels[i] != seq!['+'] && levels[i] != seq!['#']
}

/// Levels joined back into a text, with '/' between them.
pub open spec fn join_levels(levels: Seq<Seq<char>>) -> Seq<char>
    decreases levels.len(),
{
    if levels.len() == 0 {
        Seq::empty()
    } else if levels.len() == 1 {
        levels[0]
    } else {
        join_levels(levels.drop_last()) + seq!['/'] + levels.last()
    }
}

/// Joining the levels of a text gives the text back.
pub proof fn lemma_join_split_levels(s: Seq<char>)
    ensures
        join_levels(split_levels(s)) == s,
    decreases s.len(),
{
    if s.len() > 0 {
        let prev = split_levels(s.drop_last());
        lemma_join_split_levels(s.drop_last());
        lemma_split_levels_nonempty(s.drop_last());
        let c = s.last();
        let l = split_levels(s);
        if c == '/' {
            assert(l.drop_last() =~= prev);
            assert(s =~= s.drop_last() + seq!['/'] + Seq::<char>::empty());
        } else {
            let n = prev.len();
            if n == 1 {
                assert(s =~= prev[0].push(c));
            } else {
                assert(l.drop_last() =~= prev.drop_last());
                assert(l.last() == prev.last().push(c));
                let a = join_levels(prev.drop_last()) + seq!['/'];
                assert(s.drop_last() == a + prev.last());
                assert(s =~= s.drop_last().push(c));
                assert((a + prev.last()).push(c) =~= a + prev.last().push(c));
            }
        }
    }
}

/// Without wildcards, pattern levels match exactly the equal topic levels.
pub proof fn lemma_levels_match_plain(p: Seq<Seq<char>>, t: Seq<Seq<char>>)
    requires
        no_wildcard_levels(p),
    ensures
        levels_match(p, t) <==> p == t,
    decreases p.len(),
{
    if p.len() == 0 || t.len() == 0 {
        if p.len() == t.len() {
            assert(p =~= t);
        }
    } else {
        assert(p[0] != seq!['+'] && p[0] != seq!['#']);
        let pt = p.drop_first();
        assert forall|i: int| 0 <= i < pt.len() implies pt[i] != seq!['+'] && pt[i] != seq!['#'] by {
            assert(pt[i] == p[i + 1]);
        }
        lemma_levels_match_plain(pt, t.drop_first());
        if p[0] == t[0] && pt == t.drop_first() {
            assert forall|i: int| 0 <= i < p.len() implies p[i] == t[i] by {
                if i > 0 {
                    assert(p[i] == pt[i - 1]);
                    assert(t[i] == t.drop_first()[i - 1]);
                }
            }
            assert(p =~= t);
        }
        if p == t {
            assert(pt =~= t.drop_first());
        }
    }
}

/// Without a `#` level, matching pattern levels and topic levels are equally many.
pub proof fn lemma_levels_match_same_length(p: Seq<Seq<char>>, t: Seq<Seq<char>>)
    requires
        forall|i: int| 0 <= i < p.len() ==> p[i] != seq!['#'],
        levels_match(p, t),
    ensures
        p.len() == t.len(),
    decreases p.len(),
{
    if p.len() > 0 && t.len() > 0 {
        let pt = p.drop_first();
        assert forall|i: int| 0 <= i < pt.len() implies pt[i] != seq!['#'] by {
            assert(pt[i] == p[i + 1]);
        }
        assert(p[0] != seq!['#']);
        lemma_levels_match_same_length(pt, t.drop_first());
    }
}

/// A pattern without a `#` level matches only topics with as many levels as
/// it has: each `+` stands for exactly one level, so `a/+` does not match `a`.
pub proof fn lemma_no_hash_matches_same_level_count(pattern: Seq<char>, topic: Seq<char>)
    requires
        forall|i: int|
            0 <= i < split_levels(pattern).len() ==> split_levels(pattern)[i] != seq!['#'],
        spec_topic_matches(pattern, topic),
    ensures
        split_levels(pattern).len() == split_levels(topic).len(),
{
    lemma_levels_match_same_length(split_levels(pattern), split_levels(topic));
}

/// A pattern without wildcard levels matches exactly the topic equal to it.
pub proof fn lemma_plain_pattern_matches_only_itself(pattern: Seq<char>, topic: Seq<char>)
    requires
        no_wildcard_levels(split_levels(pattern)),
    ensures
        spec_topic_matches(pattern, topic) <==> pattern == topic,
{
    lemma_levels_match_plain(split_levels(pattern), split_levels(topic));
    lemma_join_split_levels(pattern);
    lemma_join_split_levels(topic);
}

/// A stored retained message.
#[derive(Debug, Clone)]
pub struct RetainedMessage {
    /// MQTT topic.
    pub topic: String,
    /// Message payload.
    pub payload: Vec<u8>,
    /// Seconds since the Unix epoch when the message was received.
    pub timestamp: u64,
    /// Node where the message was originally published.
    pub source_node: String,
}

/// Abstract view of a retained message: texts and payload as sequences.
pub struct RetainedView {
    pub topic: Seq<char>,
    pub payload: Seq<u8>,
    pub timestamp: u64,
    pub source_node: Seq<char>,
}

impl View for RetainedMessage {
    type V = RetainedView;

    open spec fn view(&self) -> RetainedView {
        RetainedView {
            topic: self.topic@,
            payload: self.payload@,
            timestamp: self.timestamp,
            source_node: self.source_node@,
        }
    }
}

/// The concurrent hash map of the `dashmap` crate, used as an opaque value.
#[verifier::external_type_specification]
#[verifier::external_body]
#[verifier::reject_recursive_types(K)]
#[verifier::reject_recursive_types(V)]
#[verifier::reject_recursive_types(S)]
pub struct ExDashMap<K, V, S>(DashMap<K, V, S>);

/// What a `DashMap` of retained messages holds, by topic text.
pub uninterp spec fn retained_entries(m: DashMap<String, RetainedMessage>) -> Map<
    Seq<char>,
    RetainedMessage,
>;

/// `DashMap::new`: an empty map.
#[verifier::external_body]
fn retained_map_new() -> (res: DashMap<String, RetainedMessage>)
    ensures
        (retained_entries(res) == Map::<Seq<char>, RetainedMessage>::empty()),
{
    DashMap::new()
}

/// `DashMap::insert`: the key now maps to the value; other keys are untouched.
#[verifier::external_body]
fn retained_map_insert(m: &mut DashMap<String, RetainedMessage>, key: String, value: RetainedMessage)
    ensures
        retained_entries(*final(m)) == retained_entries(*old(m)).insert(key@, value),
{
    m.insert(key, value);
}

/// `DashMap::get`, cloning the value found.
#[verifier::external_body]
fn retained_map_get(m: &DashMap<String, RetainedMessage>, key: &str) -> (res: Option<RetainedMessage>)
    ensures
        match res {
            Some(v) => retained_entries(*m).contains_key(key@) && v@ == retained_entries(*m)[key@]@,
            None => !retained_entries(*m).contains_key(key@),
        },
{
    m.get(key).map(|r| r.value().clone())
}

/// `DashMap::len`: the number of entries.
#[verifier::external_body]
fn retained_map_len(m: &DashMap<String, RetainedMessage>) -> (res: usize)
    ensures
        res == retained_entries(*m).len(),
{
    m.len()
}

/// `DashMap::remove`: the key no longer has an entry.
#[verifier::external_body]
fn retained_map_remove(m: &mut DashMap<String, RetainedMessage>, key: &str)
    ensures
        retained_entries(*final(m)) == retained_entries(*old(m)).remove(key@),
{
    m.remove(key);
}

/// `DashMap::clear`: no entries remain.
#[verifier::external_body]
fn retained_map_clear(m: &mut DashMap<String, RetainedMessage>)
    ensures
        (retained_entries(*final(m)) == Map::<Seq<char>, RetainedMessage>::empty()),
{
    m.clear();
}

/// `DashMap::iter`, cloning each entry: every entry once, in an unspecified order.
#[verifier::external_body]
fn retained_map_entries(m: &DashMap<String, RetainedMessage>) -> (res: Vec<(String, RetainedMessage)>)
    ensures
        res@.len() == retained_entries(*m).len(),
        forall|i: int|
            0 <= i < res@.len() ==> retained_entries(*m).contains_key(#[trigger] res@[i].0@)
                && res@[i].1@ == retained_entries(*m)[res@[i].0@]@,
        forall|i: int, j: int|
            0 <= i < res@.len() && 0 <= j < res@.len() && i != j ==> #[trigger] res@[i].0@
                != #[trigger] res@[j].0@,
        forall|k: Seq<char>|
            #[trigger] retained_entries(*m).contains_key(k) ==> exists|i: int|
                0 <= i < res@.len() && res@[i].0@ == k,
{
    m.iter().map(|r| (r.key().clone(), r.value().clone())).collect()
}

/// `SystemTime::now()` as whole seconds since the Unix epoch (0 if the clock is before it).
#[verifier::external_body]
pub(crate) fn unix_now_secs() -> u64 {
    std::time::SystemTime::now().duration_since(std::time::UNIX_EPOCH).unwrap_or_default().as_secs()
}

/// Clone a byte vector.
pub fn clone_bytes(v: &Vec<u8>) -> (res: Vec<u8>)
    ensures
        res@ == v@,
{
    let mut out: Vec<u8> = Vec::new();
    let mut i: usize = 0;
    while i < v.len()
        invariant
            i <= v.len(),
            out@ == v@.take(i as int),
        decreases v.len() - i,
    {
        out.push(v[i]);
        i = i + 1;
    }
    assert(v@.take(v.len() as int) == v@);
    out
}

impl RetainedMessage {
    /// A copy of this message with the same field values.
    pub fn duplicate(&self) -> (res: RetainedMessage)
        ensures
            res.topic == self.topic,
            res.payload@ == self.payload@,
            res.timestamp == self.timestamp,
            res.source_node == self.source_node,
    {
        RetainedMessage {
            topic: self.topic.clone(),
            payload: clone_bytes(&self.payload),
            timestamp: self.timestamp,
            source_node: self.source_node.clone(),
        }
    }
}

/// The entries after a synced message arrives: it replaces the stored one
/// only when strictly newer, and is inserted when the topic is new.
pub open spec fn spec_after_sync(
    entries: Map<Seq<char>, RetainedMessage>,
    msg: RetainedMessage,
) -> Map<Seq<char>, RetainedMessage> {
    if entries.contains_key(msg.topic@) && !(msg.timestamp > entries[msg.topic@].timestamp) {
        entries
    } else {
        entries.insert(msg.topic@, msg)
    }
}

/// Store for retained messages, indexed by topic.
pub struct RetainedStore {
    messages: DashMap<String, RetainedMessage>,
    node_name: String,
}

impl RetainedStore {
    /// The stored messages by topic.
    pub closed spec fn entries(&self) -> Map<Seq<char>, RetainedMessage> {
        retained_entries(self.messages)
    }

    /// The name of the local node, recorded as source of local messages.
    pub closed spec fn spec_node_name(&self) -> String {
        self.node_name
    }

    /// Well-formed: finitely many topics, and every message is stored under its own topic.
    pub open spec fn wf(&self) -> bool {
        &&& self.entries().dom().finite()
        &&& forall|k: Seq<char>| #[trigger]
            self.entries().contains_key(k) ==> self.entries()[k].topic@ == k
    }

    /// Create an empty store for the given local node.
    pub fn new(node_name: String) -> (res: Self)
        ensures
            res.wf(),
            res.entries() == Map::<Seq<char>, RetainedMessage>::empty(),
            res.spec_node_name() == node_name,
    {
        RetainedStore { messages: retained_map_new(), node_name }
    }

    /// Store a locally published retained message with the given timestamp.
    pub fn store_with_timestamp(&mut self, topic: String, payload: Vec<u8>, timestamp: u64)
        requires
            old(self).wf(),
        ensures
            final(self).wf(),
            final(self).spec_node_name() == old(self).spec_node_name(),
            final(self).entries() == old(self).entries().insert(
                topic@,
                RetainedMessage {
                    topic,
                    payload,
                    timestamp,
                    source_node: old(self).spec_node_name(),
                },
            ),
    {
        let msg = RetainedMessage {
            topic: topic.clone(),
            payload,
            timestamp,
            source_node: self.node_name.clone(),
        };
        let ghost key = topic@;
        retained_map_insert(&mut self.messages, topic, msg);
        proof {
            assert forall|k: Seq<char>| #[trigger] self.entries().contains_key(k) implies self.entries()[k].topic@ == k by {
                if k != key {
                    assert(old(self).entries().contains_key(k));
                }
            }
        }
    }

    /// Store a locally published retained message, stamped with the current time.
    pub fn store(&mut self, topic: String, payload: Vec<u8>)
        requires
            old(self).wf(),
        ensures
            final(self).wf(),
            final(self).spec_node_name() == old(self).spec_node_name(),
            exists|timestamp: u64|
                final(self).entries() == old(self).entries().insert(
                    topic@,
                    RetainedMessage {
                        topic,
                        payload,
                        timestamp,
                        source_node: old(self).spec_node_name(),
                    },
                ),
    {
        let timestamp = unix_now_secs();
        self.store_with_timestamp(topic, payload, timestamp);
    }

    /// Store a retained message from another node: kept only if newer than
    /// the stored one, or if the topic had none.
    pub fn store_synced(&mut self, msg: RetainedMessage)
        requires
            old(self).wf(),
        ensures
            final(self).wf(),
            final(self).spec_node_name() == old(self).spec_node_name(),
            final(self).entries() == spec_after_sync(old(self).entries(), msg),
    {
        let existing = retained_map_get(&self.messages, msg.topic.as_str());
        match existing {
            Some(e) => {
                if msg.timestamp > e.timestamp {
                    let key = msg.topic.clone();
                    let ghost kv = key@;
                    retained_map_insert(&mut self.messages, key, msg);
                    proof {
                        assert forall|k: Seq<char>| #[trigger] self.entries().contains_key(k) implies self.entries()[k].topic@ == k by {
                            if k != kv {
                                assert(old(self).entries().contains_key(k));
                            }
                        }
                    }
                }
            },
            None => {
                let key = msg.topic.clone();
                let ghost kv = key@;
                retained_map_insert(&mut self.messages, key, msg);
                proof {
                    assert forall|k: Seq<char>| #[trigger] self.entries().contains_key(k) implies self.entries()[k].topic@ == k by {
                        if k != kv {
                            assert(old(self).entries().contains_key(k));
                        }
                    }
                }
            },
        }
    }

    /// Get a retained message by topic.
    pub fn get(&self, topic: &str) -> (res: Option<RetainedMessage>)
        ensures
            match res {
                Some(m) => self.entries().contains_key(topic@) && m@ == self.entries()[topic@]@,
                None => !self.entries().contains_key(topic@),
            },
    {
        retained_map_get(&self.messages, topic)
    }

    /// All retained messages, each once, in an unspecified order.
    pub fn get_all(&self) -> (res: Vec<RetainedMessage>)
        requires
            self.wf(),
        ensures
            res@.len() == self.entries().len(),
            forall|i: int|
                0 <= i < res@.len() ==> self.entries().contains_key(#[trigger] res@[i].topic@)
                    && res@[i]@ == self.entries()[res@[i].topic@]@,
            forall|i: int, j: int|
                0 <= i < res@.len() && 0 <= j < res@.len() && i != j ==> #[trigger] res@[i].topic@
                    != #[trigger] res@[j].topic@,
            forall|k: Seq<char>|
                #[trigger] self.entries().contains_key(k) ==> exists|i: int|
                    0 <= i < res@.len() && res@[i].topic@ == k,
    {
        let mut rest = retained_map_entries(&self.messages);
        let ghost orig = rest@;
        let ghost n = orig.len();
        let ghost ents = self.entries();
        let mut out: Vec<RetainedMessage> = Vec::new();
        while rest.len() > 0
            invariant
                ents == self.entries(),
                n == orig.len(),
                rest@ == orig.take(rest@.len() as int),
                out@.len() + rest@.len() == n,
                forall|k: Seq<char>| #[trigger] ents.contains_key(k) ==> ents[k].topic@ == k,
                forall|j: int| 0 <= j < out@.len() ==> #[trigger] out@[j] == orig[n - 1 - j].1,
            decreases rest@.len(),
        {
            let popped = rest.pop();
            match popped {
                Some(pair) => {
                    assert(pair == orig[rest@.len() as int]);
                    assert(rest@ =~= orig.take(rest@.len() as int));
                    out.push(pair.1);
                },
                None => {},
            }
        }
        proof {
            assert forall|j: int| 0 <= j < out@.len() implies ents.contains_key(
                #[trigger] out@[j].topic@,
            ) && out@[j]@ == ents[out@[j].topic@]@ by {
                let q = n - 1 - j;
                assert(ents.contains_key(orig[q].0@));
                assert(out@[j] == orig[q].1);
            }
            assert forall|a: int, b: int|
                0 <= a < out@.len() && 0 <= b < out@.len() && a != b implies #[trigger] out@[a].topic@
                != #[trigger] out@[b].topic@ by {
                let qa = n - 1 - a;
                let qb = n - 1 - b;
                assert(ents.contains_key(orig[qa].0@));
                assert(ents.contains_key(orig[qb].0@));
                assert(orig[qa].0@ != orig[qb].0@);
                assert(out@[a] == orig[qa].1);
                assert(out@[b] == orig[qb].1);
            }
            assert forall|k: Seq<char>| #[trigger] ents.contains_key(k) implies exists|j: int|
                0 <= j < out@.len() && out@[j].topic@ == k by {
                let q = choose|q: int| 0 <= q < orig.len() && orig[q].0@ == k;
                let j = n - 1 - q;
                assert(out@[j] == orig[q].1);
                assert(orig[q].1@ == ents[orig[q].0@]@);
            }
        }
        out
    }

    /// All retained messages whose topic matches `pattern`, each once, in an unspecified order.
    pub fn get_matching(&self, pattern: &str) -> (res: Vec<RetainedMessage>)
        requires
            self.wf(),
        ensures
            forall|i: int|
                0 <= i < res@.len() ==> self.entries().contains_key(#[trigger] res@[i].topic@)
                    && res@[i]@ == self.entries()[res@[i].topic@]@ && spec_topic_matches(
                    pattern@,
                    res@[i].topic@,
                ),
            forall|i: int, j: int|
                0 <= i < res@.len() && 0 <= j < res@.len() && i != j ==> #[trigger] res@[i].topic@
                    != #[trigger] res@[j].topic@,
            forall|k: Seq<char>|
                #[trigger] self.entries().contains_key(k) && spec_topic_matches(pattern@, k)
                    ==> exists|i: int| 0 <= i < res@.len() && res@[i].topic@ == k,
    {
        let pc = chars_of(pattern);
        if is_single(&pc, '#') {
            let all = self.get_all();
            proof {
                assert forall|i: int| 0 <= i < all@.len() implies spec_topic_matches(
                    pattern@,
                    #[trigger] all@[i].topic@,
                ) by {
                    lemma_hash_matches_everything(all@[i].topic@);
                }
            }
            return all;
        }
        let mut rest = self.get_all();
        let ghost orig = rest@;
        let ghost n = orig.len();
        let ghost mut idx: Seq<int> = Seq::empty();
        let mut out: Vec<RetainedMessage> = Vec::new();
        while rest.len() > 0
            invariant
                n == orig.len(),
                rest@.len() <= n,
                rest@ == orig.take(rest@.len() as int),
                idx.len() == out@.len(),
                forall|q: int|
                    0 <= q < n ==> self.entries().contains_key(#[trigger] orig[q].topic@)
                        && orig[q]@ == self.entries()[orig[q].topic@]@,
                forall|a: int, b: int|
                    0 <= a < n && 0 <= b < n && a != b ==> #[trigger] orig[a].topic@
                        != #[trigger] orig[b].topic@,
                forall|j: int|
                    0 <= j < idx.len() ==> rest@.len() <= #[trigger] idx[j] < n && out@[j]
                        == orig[idx[j]] && spec_topic_matches(pattern@, out@[j].topic@),
                forall|a: int, b: int| 0 <= a < b < idx.len() ==> idx[a] > idx[b],
                forall|q: int|
                    rest@.len() <= q < n && spec_topic_matches(pattern@, #[trigger] orig[q].topic@)
                        ==> exists|j: int| 0 <= j < idx.len() && idx[j] == q,
            decreases rest@.len(),
        {
            let popped = rest.pop();
            match popped {
                Some(m) => {
                    let ghost q = rest@.len() as int;
                    assert(m == orig[q]);
                    assert(rest@ =~= orig.take(rest@.len() as int));
                    let ghost old_idx = idx;
                    let matched = topic_matches(pattern, m.topic.as_str());
                    if matched {
                        out.push(m);
                        proof {
                            idx = idx.push(q);
                        }
                    }
                    proof {
                        assert forall|r: int|
                            rest@.len() <= r < n && spec_topic_matches(pattern@, #[trigger] orig[r].topic@)
                            implies exists|j: int| 0 <= j < idx.len() && idx[j] == r by {
                            if r == q {
                                assert(matched);
                                assert(idx[idx.len() - 1] == q);
                            } else {
                                let j = choose|j: int| 0 <= j < old_idx.len() && old_idx[j] == r;
                                assert(idx[j] == old_idx[j]);
                            }
                        }
                    }
                },
                None => {},
            }
        }
        proof {
            assert forall|i: int| 0 <= i < out@.len() implies self.entries().contains_key(
                #[trigger] out@[i].topic@,
            ) && out@[i]@ == self.entries()[out@[i].topic@]@ && spec_topic_matches(
                pattern@,
                out@[i].topic@,
            ) by {
                assert(out@[i] == orig[idx[i]]);
            }
            assert forall|a: int, b: int|
                0 <= a < out@.len() && 0 <= b < out@.len() && a != b implies #[trigger] out@[a].topic@
                != #[trigger] out@[b].topic@ by {
                assert(idx[a] != idx[b]);
                assert(out@[a] == orig[idx[a]]);
                assert(out@[b] == orig[idx[b]]);
            }
            assert forall|k: Seq<char>|
                #[trigger] self.entries().contains_key(k) && spec_topic_matches(pattern@, k)
                implies exists|i: int| 0 <= i < out@.len() && out@[i].topic@ == k by {
                let q = choose|q: int| 0 <= q < orig.len() && orig[q].topic@ == k;
                let j = choose|j: int| 0 <= j < idx.len() && idx[j] == q;
                assert(out@[j] == orig[q]);
            }
        }
        out
    }

    /// Get the number of stored messages.
    pub fn count(&self) -> (res: usize)
        ensures
            res == self.entries().len(),
    {
        retained_map_len(&self.messages)
    }

    /// Remove the retained message of a topic, if any.
    pub fn remove(&mut self, topic: &str)
        requires
            old(self).wf(),
        ensures
            final(self).wf(),
            final(self).spec_node_name() == old(self).spec_node_name(),
            final(self).entries() == old(self).entries().remove(topic@),
    {
        retained_map_remove(&mut self.messages, topic);
        proof {
            assert forall|k: Seq<char>| #[trigger] self.entries().contains_key(k) implies self.entries()[k].topic@ == k by {
                assert(old(self).entries().contains_key(k));
            }
        }
    }

    /// Remove all retained messages.
    pub fn clear(&mut self)
        requires
            old(self).wf(),
        ensures
            final(self).wf(),
            final(self).spec_node_name() == old(self).spec_node_name(),
            final(self).entries() == Map::<Seq<char>, RetainedMessage>::empty(),
    {
        retained_map_clear(&mut self.messages);
    }
}

/// A synced message never lowers the timestamp held for a topic, leaves the
/// other topics untouched, and afterwards its own topic holds a message at
/// least as new as it.
pub proof fn lemma_sync_keeps_newest(entries: Map<Seq<char>, RetainedMessage>, msg: RetainedMessage)
    ensures
        forall|k: Seq<char>| #[trigger]
            entries.contains_key(k) ==> spec_after_sync(entries, msg).contains_key(k)
                && spec_after_sync(entries, msg)[k].timestamp >= entries[k].timestamp,
        forall|k: Seq<char>|
            k != msg.topic@ ==> (#[trigger] spec_after_sync(entries, msg).contains_key(k)
                == entries.contains_key(k)) && (entries.contains_key(k) ==> spec_after_sync(
                entries,
                msg,
            )[k] == entries[k]),
        spec_after_sync(entries, msg).contains_key(msg.topic@),
        spec_after_sync(entries, msg)[msg.topic@].timestamp >= msg.timestamp,
{
}

/// Delivering the same synced message twice has the effect of delivering it once.
pub proof fn lemma_sync_idempotent(entries: Map<Seq<char>, RetainedMessage>, msg: RetainedMessage)
    ensures
        spec_after_sync(spec_after_sync(entries, msg), msg) == spec_after_sync(entries, msg),
{
}

/// A locally stored message is what a later read of its topic gives back:
/// its topic, payload, timestamp and the local node as source.
pub proof fn lemma_read_after_store(
    before: RetainedStore,
    after: RetainedStore,
    topic: String,
    payload: Vec<u8>,
    timestamp: u64,
)
    requires
        after.entries() == before.entries().insert(
            topic@,
            RetainedMessage { topic, payload, timestamp, source_node: before.spec_node_name() },
        ),
    ensures
        after.entries().contains_key(topic@),
        after.entries()[topic@]@ == (RetainedView {
            topic: topic@,
            payload: payload@,
            timestamp,
            source_node: before.spec_node_name()@,
        }),
{
}

/// After a topic is removed, a read of it finds nothing; other topics keep their messages.
pub proof fn lemma_read_after_remove(before: RetainedStore, after: RetainedStore, topic: Seq<char>)
    requires
        after.entries() == before.entries().remove(topic),
    ensures
        !after.entries().contains_key(topic),
        forall|k: Seq<char>|
            k != topic && #[trigger] before.entries().contains_key(k) ==> after.entries().contains_key(k)
                && after.entries()[k] == before.entries()[k],
{
}

} // verus!
