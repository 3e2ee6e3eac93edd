//! Upload and download speed of the connections that go through a proxy.
use crate::text;
use vstd::hash_map::StringHashMap;
use vstd::prelude::*;

verus! {

/// A connection as the core reports it, reduced to what the speed depends on.
#[derive(Debug, Clone, PartialEq, Eq)]
pub struct Connection {
    pub id: String,
    /// The chain of the connection, the exit first.
    pub chains: Vec<String>,
    /// Bytes sent so far.
    pub upload: u64,
    /// Bytes received so far.
    pub download: u64,
}

/// Bytes per sampling interval.
#[derive(Debug, Clone, Copy, PartialEq, Eq, Structural)]
pub struct ProxyConnectionSpeed {
    pub up: u64,
    pub down: u64,
}

impl Default for ProxyConnectionSpeed {
    /// No traffic.
    fn default() -> (speed: Self)
        ensures
            speed.up == 0 && speed.down == 0,
    {
        ProxyConnectionSpeed { up: 0, down: 0 }
    }
}

/// The counters of a connection at one moment.
#[derive(Debug, Clone, Copy, PartialEq, Eq, Structural)]
pub struct ConnectionTrafficSnapshot {
    pub upload: u64,
    pub download: u64,
}

/// An ASCII letter in upper case; any other character as it is.
pub open spec fn ascii_upper(c: char) -> char {
    if 'a' <= c <= 'z' {
        (c as u32 - 0x20) as char
    } else {
        c
    }
}

/// A text with its ASCII letters in upper case.
pub open spec fn uppercased(text: Seq<char>) -> Seq<char> {
    text.map_values(|c: char| ascii_upper(c))
}

/// The exits that are no proxies, in any case of their letters.
pub open spec fn is_plain_exit(exit: Seq<char>) -> bool {
    let name = uppercased(exit);
    name == "DIRECT"@ || name == "REJECT"@ || name == "REJECT-DROP"@
}

/// Whether a connection goes through a proxy.
pub open spec fn is_proxied(connection: Connection) -> bool {
    connection.chains@.len() > 0 && !is_plain_exit(connection.chains@[0]@)
}

/// The counters of a connection.
pub open spec fn counters(connection: Connection) -> ConnectionTrafficSnapshot {
    ConnectionTrafficSnapshot { upload: connection.upload, download: connection.download }
}

/// How far a counter has grown; nothing where it was reset.
pub open spec fn growth(from: u64, to: u64) -> nat {
    if to >= from {
        (to - from) as nat
    } else {
        0
    }
}

/// What a connection has sent since it was last seen; nothing where it was not seen before or goes
/// through no proxy.
pub open spec fn sent(
    known: Map<Seq<char>, ConnectionTrafficSnapshot>,
    connection: Connection,
) -> nat {
    if is_proxied(connection) && known.contains_key(connection.id@) {
        growth(known[connection.id@].upload, connection.upload)
    } else {
        0
    }
}

/// What a connection has received since it was last seen; nothing where it was not seen before or
/// goes through no proxy.
pub open spec fn received(
    known: Map<Seq<char>, ConnectionTrafficSnapshot>,
    connection: Connection,
) -> nat {
    if is_proxied(connection) && known.contains_key(connection.id@) {
        growth(known[connection.id@].download, connection.download)
    } else {
        0
    }
}

/// The known counters, once the connections of a frame have been seen in turn.
pub open spec fn after_frame(
    known: Map<Seq<char>, ConnectionTrafficSnapshot>,
    frame: Seq<Connection>,
) -> Map<Seq<char>, ConnectionTrafficSnapshot>
    decreases frame.len(),
{
    if frame.len() == 0 {
        known
    } else {
        after_frame(known, frame.drop_last()).insert(frame.last().id@, counters(frame.last()))
    }
}

/// What the connections of a frame have sent, each since it was last seen.
pub open spec fn total_sent(
    known: Map<Seq<char>, ConnectionTrafficSnapshot>,
    frame: Seq<Connection>,
) -> nat
    decreases frame.len(),
{
    if frame.len() == 0 {
        0
    } else {
        total_sent(known, frame.drop_last()) + sent(
            after_frame(known, frame.drop_last()),
            frame.last(),
        )
    }
}

/// What the connections of a frame have received, each since it was last seen.
pub open spec fn total_received(
    known: Map<Seq<char>, ConnectionTrafficSnapshot>,
    frame: Seq<Connection>,
) -> nat
    decreases frame.len(),
{
    if frame.len() == 0 {
        0
    } else {
        total_received(known, frame.drop_last()) + received(
            after_frame(known, frame.drop_last()),
            frame.last(),
        )
    }
}

/// The counters of the connections of one frame, and of no others.
pub open spec fn frame_counters(frame: Seq<Connection>) -> Map<
    Seq<char>,
    ConnectionTrafficSnapshot,
> {
    after_frame(Map::empty(), frame)
}

/// Whether the totals of a frame can be told in the width of a speed.
pub open spec fn fits(
    known: Map<Seq<char>, ConnectionTrafficSnapshot>,
    frame: Seq<Connection>,
) -> bool {
    total_sent(known, frame) <= u64::MAX && total_received(known, frame) <= u64::MAX
}

/// Whether `text` with its ASCII letters in upper case is `upper`.
fn is_uppercased(text: &str, upper: &str) -> (same: bool)
    ensures
        same == (uppercased(text@) == upper@),
{
    let chars = text::chars_of(text);
    let wanted = text::chars_of(upper);
    if chars.len() != wanted.len() {
        return false;
    }
    let mut i: usize = 0;
    while i < chars.len()
        invariant
            i <= chars@.len() == wanted@.len(),
            chars@ == text@,
            wanted@ == upper@,
            forall|j: int| 0 <= j < i ==> ascii_upper(#[trigger] chars@[j]) == wanted@[j],
        decreases chars@.len() - i,
    {
        let c = chars[i];
        let w = wanted[i];
        let same = if 'a' <= c && c <= 'z' {
            c as u32 - 0x20 == w as u32
        } else {
            c == w
        };
        proof {
            let upper_c = ascii_upper(c);
            assert('a' <= c <= 'z' ==> upper_c as u32 == c as u32 - 0x20);
            vstd::utf8::char_u32_cast(w, w as u32);
            vstd::utf8::char_u32_cast(upper_c, upper_c as u32);
            assert(same == (upper_c == w));
        }
        if !same {
            assert(uppercased(text@)[i as int] != upper@[i as int]);
            return false;
        }
        i = i + 1;
    }
    assert(uppercased(text@) =~= upper@);
    true
}

/// Sampler of the speed: it remembers the counters of one frame and tells how far they have grown
/// in the next.
pub struct ProxyConnectionSpeedSampler {
    previous: StringHashMap<ConnectionTrafficSnapshot>,
}

impl View for ProxyConnectionSpeedSampler {
    type V = Map<Seq<char>, ConnectionTrafficSnapshot>;

    closed spec fn view(&self) -> Map<Seq<char>, ConnectionTrafficSnapshot> {
        self.previous@
    }
}

impl Default for ProxyConnectionSpeedSampler {
    /// A sampler that has seen nothing.
    fn default() -> (sampler: Self)
        ensures
            sampler@ == Map::<Seq<char>, ConnectionTrafficSnapshot>::empty(),
    {
        ProxyConnectionSpeedSampler { previous: StringHashMap::new() }
    }
}

impl ProxyConnectionSpeedSampler {
    /// A sampler that has seen nothing.
    pub fn new() -> (sampler: Self)
        ensures
            sampler@ == Map::<Seq<char>, ConnectionTrafficSnapshot>::empty(),
    {
        Self::default()
    }

    /// Takes in the current connections and tells what those through a proxy have transferred since
    /// they were last seen. Afterwards the sampler knows these connections and no others.
    pub fn sample(&mut self, connections: &[Connection]) -> (speed: ProxyConnectionSpeed)
        requires
            fits(old(self)@, connections@),
        ensures
            speed.up == total_sent(old(self)@, connections@),
            speed.down == total_received(old(self)@, connections@),
            final(self)@ == frame_counters(connections@),
    {
        match self.checked_sample(connections) {
            Some(speed) => speed,
            None => ProxyConnectionSpeed::default(),
        }
    }

    /// Like `sample`, for connections of any kind: there is no speed exactly where a total does not
    /// fit.
    pub fn checked_sample(&mut self, connections: &[Connection]) -> (speed: Option<
        ProxyConnectionSpeed,
    >)
        ensures
            match speed {
                Some(speed) => {
                    &&& fits(old(self)@, connections@)
                    &&& speed.up == total_sent(old(self)@, connections@)
                    &&& speed.down == total_received(old(self)@, connections@)
                },
                None => !fits(old(self)@, connections@),
            },
            final(self)@ == frame_counters(connections@),
    {
        let ghost known = self@;
        let ghost frame = connections@;
        let mut up: u128 = 0;
        let mut down: u128 = 0;
        let mut current: StringHashMap<ConnectionTrafficSnapshot> = StringHashMap::with_capacity(
            connections.len(),
        );
        let mut i: usize = 0;
        assert(frame.take(0) =~= seq![]);
        while i < connections.len()
            invariant
                i <= connections@.len(),
                frame == connections@,
                self@ == after_frame(known, frame.take(i as int)),
                current@ == frame_counters(frame.take(i as int)),
                up == total_sent(known, frame.take(i as int)),
                down == total_received(known, frame.take(i as int)),
                up <= i * u64::MAX,
                down <= i * u64::MAX,
            decreases connections@.len() - i,
        {
            let connection = &connections[i];
            assert(frame.take(i + 1).drop_last() =~= frame.take(i as int));
            let snapshot = Self::snapshot(connection);
            if Self::is_proxy_connection(connection) {
                if let Some(previous) = self.previous.get(connection.id.as_str()) {
                    up = up + connection.upload.saturating_sub(previous.upload) as u128;
                    down = down + connection.download.saturating_sub(previous.download) as u128;
                }
            }
            self.previous.insert(connection.id.clone(), snapshot);
            current.insert(connection.id.clone(), snapshot);
            i = i + 1;
        }
        assert(frame.take(i as int) =~= frame);
        self.previous = current;
        if up <= u64::MAX as u128 && down <= u64::MAX as u128 {
            Some(ProxyConnectionSpeed { up: up as u64, down: down as u64 })
        } else {
            None
        }
    }

    /// Whether a connection goes through a proxy.
    pub fn is_proxy_connection(connection: &Connection) -> (proxied: bool)
        ensures
            proxied == is_proxied(*connection),
    {
        if connection.chains.len() == 0 {
            return false;
        }
        let exit = connection.chains[0].as_str();
        !(is_uppercased(exit, "DIRECT") || is_uppercased(exit, "REJECT") || is_uppercased(
            exit,
            "REJECT-DROP",
        ))
    }

    /// The counters of a connection.
    pub fn snapshot(connection: &Connection) -> (snapshot: ConnectionTrafficSnapshot)
        ensures
            snapshot == counters(*connection),
    {
        ConnectionTrafficSnapshot { upload: connection.upload, download: connection.download }
    }
}

/// Whether no two connections of a frame share their identifier.
pub open spec fn has_distinct_ids(frame: Seq<Connection>) -> bool {
    forall|i: int, j: int|
        0 <= i < j < frame.len() ==> (#[trigger] frame[i]).id@ != (#[trigger] frame[j]).id@
}

/// Whether a connection with this identifier is in a frame.
pub open spec fn has_id(frame: Seq<Connection>, id: Seq<char>) -> bool {
    exists|i: int| 0 <= i < frame.len() && (#[trigger] frame[i]).id@ == id
}

/// The last connection of a frame with this identifier.
pub open spec fn last_seen(frame: Seq<Connection>, id: Seq<char>) -> Option<Connection>
    decreases frame.len(),
{
    if frame.len() == 0 {
        None
    } else if frame.last().id@ == id {
        Some(frame.last())
    } else {
        last_seen(frame.drop_last(), id)
    }
}

/// A connection that a frame holds is known by its last counters, any other stays known as it was.
proof fn lemma_after_frame(
    known: Map<Seq<char>, ConnectionTrafficSnapshot>,
    frame: Seq<Connection>,
    id: Seq<char>,
)
    ensures
        last_seen(frame, id) is Some <==> has_id(frame, id),
        match last_seen(frame, id) {
            Some(connection) => {
                &&& after_frame(known, frame).contains_key(id)
                &&& after_frame(known, frame)[id] == counters(connection)
            },
            None => {
                &&& after_frame(known, frame).contains_key(id) == known.contains_key(id)
                &&& after_frame(known, frame)[id] == known[id]
            },
        },
    decreases frame.len(),
{
    if frame.len() > 0 {
        let rest = frame.drop_last();
        lemma_after_frame(known, rest, id);
        assert(has_id(frame, id) <==> has_id(rest, id) || frame.last().id@ == id) by {
            if has_id(rest, id) {
                let i = choose|i: int| 0 <= i < rest.len() && (#[trigger] rest[i]).id@ == id;
                assert(frame[i].id@ == id);
            }
            if has_id(frame, id) && frame.last().id@ != id {
                let i = choose|i: int| 0 <= i < frame.len() && (#[trigger] frame[i]).id@ == id;
                assert(rest[i].id@ == id);
            }
            assert(frame[frame.len() - 1].id@ == frame.last().id@);
        }
    }
}

/// After a frame exactly its connections are known, each by its last counters. So a connection that
/// disappears is forgotten, and counts as new when it comes back.
pub proof fn only_current_connections_are_known(frame: Seq<Connection>, id: Seq<char>)
    ensures
        frame_counters(frame).contains_key(id) <==> has_id(frame, id),
        last_seen(frame, id) is Some <==> has_id(frame, id),
        last_seen(frame, id) matches Some(connection) ==> frame_counters(frame)[id] == counters(
            connection,
        ),
{
    lemma_after_frame(Map::empty(), frame, id);
}

/// The sum of what each connection has sent since the frame before.
pub open spec fn sum_sent(
    known: Map<Seq<char>, ConnectionTrafficSnapshot>,
    frame: Seq<Connection>,
) -> nat
    decreases frame.len(),
{
    if frame.len() == 0 {
        0
    } else {
        sum_sent(known, frame.drop_last()) + sent(known, frame.last())
    }
}

/// The sum of what each connection has received since the frame before.
pub open spec fn sum_received(
    known: Map<Seq<char>, ConnectionTrafficSnapshot>,
    frame: Seq<Connection>,
) -> nat
    decreases frame.len(),
{
    if frame.len() == 0 {
        0
    } else {
        sum_received(known, frame.drop_last()) + received(known, frame.last())
    }
}

/// Where identifiers are distinct, every connection is compared with the frame before, and the
/// speed is the sum over all connections.
pub proof fn distinct_connections_add_up(
    known: Map<Seq<char>, ConnectionTrafficSnapshot>,
    frame: Seq<Connection>,
)
    requires
        has_distinct_ids(frame),
    ensures
        total_sent(known, frame) == sum_sent(known, frame),
        total_received(known, frame) == sum_received(known, frame),
    decreases frame.len(),
{
    if frame.len() > 0 {
        let rest = frame.drop_last();
        assert(has_distinct_ids(rest)) by {
            assert forall|i: int, j: int| 0 <= i < j < rest.len() implies (#[trigger] rest[i]).id@
                != (#[trigger] rest[j]).id@ by {
                assert(frame[i].id@ != frame[j].id@);
            }
        }
        distinct_connections_add_up(known, rest);
        assert(!has_id(rest, frame.last().id@)) by {
            if has_id(rest, frame.last().id@) {
                let i = choose|i: int|
                    0 <= i < rest.len() && (#[trigger] rest[i]).id@ == frame.last().id@;
                assert(frame[i].id@ != frame[frame.len() - 1].id@);
            }
        }
        lemma_after_frame(known, rest, frame.last().id@);
    }
}

/// Whether the connection at `at` repeats the identifier of an earlier one of the same frame, goes
/// through a proxy, and is ahead of the last such one in a counter.
pub open spec fn is_growing_repeat(frame: Seq<Connection>, at: int) -> bool {
    &&& 0 <= at < frame.len()
    &&& is_proxied(frame[at])
    &&& last_seen(frame.take(at), frame[at].id@) matches Some(earlier) && (earlier.upload
        < frame[at].upload || earlier.download < frame[at].download)
}

/// A frame of connections that were all unseen gives no speed, unless one of them is a growing
/// repeat of another. So the first frame of a sampler gives none where identifiers are distinct.
pub proof fn new_connections_are_silent(
    known: Map<Seq<char>, ConnectionTrafficSnapshot>,
    frame: Seq<Connection>,
)
    requires
        forall|i: int| 0 <= i < frame.len() ==> !known.contains_key((#[trigger] frame[i]).id@),
    ensures
        total_sent(known, frame) == 0 && total_received(known, frame) == 0 <==> (forall|at: int|
            !(#[trigger] is_growing_repeat(frame, at))),
        has_distinct_ids(frame) ==> total_sent(known, frame) == 0 && total_received(known, frame)
            == 0,
    decreases frame.len(),
{
    if frame.len() > 0 {
        let rest = frame.drop_last();
        let last = frame.len() - 1;
        assert forall|i: int| 0 <= i < rest.len() implies !known.contains_key(
            (#[trigger] rest[i]).id@,
        ) by {
            assert(frame[i].id@ == rest[i].id@);
        }
        new_connections_are_silent(known, rest);
        lemma_after_frame(known, rest, frame[last].id@);
        assert(!known.contains_key(frame[last].id@));
        assert(frame.take(last) =~= rest);
        assert forall|at: int| 0 <= at < last implies is_growing_repeat(rest, at)
            == #[trigger] is_growing_repeat(frame, at) by {
            assert(rest.take(at) =~= frame.take(at));
        }
        let silent = sent(after_frame(known, rest), frame[last]) == 0 && received(
            after_frame(known, rest),
            frame[last],
        ) == 0;
        assert(silent == !is_growing_repeat(frame, last));
        if forall|at: int| !(#[trigger] is_growing_repeat(frame, at)) {
            assert forall|at: int| !(#[trigger] is_growing_repeat(rest, at)) by {
                if 0 <= at < last {
                    assert(!is_growing_repeat(frame, at));
                }
            }
        }
        if silent && (forall|at: int| !(#[trigger] is_growing_repeat(rest, at))) {
            assert forall|at: int| !(#[trigger] is_growing_repeat(frame, at)) by {
                if 0 <= at < last {
                    assert(!is_growing_repeat(rest, at));
                }
            }
        }
    }
    if has_distinct_ids(frame) {
        assert forall|at: int| !(#[trigger] is_growing_repeat(frame, at)) by {
            if 0 <= at < frame.len() {
                let before = frame.take(at);
                lemma_after_frame(known, before, frame[at].id@);
                if has_id(before, frame[at].id@) {
                    let i = choose|i: int|
                        0 <= i < before.len() && (#[trigger] before[i]).id@ == frame[at].id@;
                    assert(frame[i].id@ != frame[at].id@);
                }
            }
        }
    }
}

/// Connections that go through no proxy never count, whatever their counters do.
pub proof fn plain_connections_are_silent(
    known: Map<Seq<char>, ConnectionTrafficSnapshot>,
    frame: Seq<Connection>,
)
    requires
        forall|i: int| 0 <= i < frame.len() ==> !is_proxied(#[trigger] frame[i]),
    ensures
        total_sent(known, frame) == 0,
        total_received(known, frame) == 0,
    decreases frame.len(),
{
    if frame.len() > 0 {
        let rest = frame.drop_last();
        assert forall|i: int| 0 <= i < rest.len() implies !is_proxied(#[trigger] rest[i]) by {
            assert(rest[i] == frame[i]);
        }
        plain_connections_are_silent(known, rest);
        assert(!is_proxied(frame[frame.len() - 1]));
    }
}

/// Counters that went back count as nothing, and growth over two frames is that of both together
/// where the counters do not go back.
pub proof fn counters_grow_or_reset(first: u64, second: u64, third: u64)
    ensures
        second < first ==> growth(first, second) == 0,
        first <= second <= third ==> growth(first, second) + growth(second, third) == growth(
            first,
            third,
        ),
{
}

/// Whether `text` is `word`, an upper case word, up to the case of ASCII letters.
pub open spec fn spells(text: Seq<char>, word: Seq<char>) -> bool {
    &&& text.len() == word.len()
    &&& forall|i: int|
        0 <= i < word.len() ==> #[trigger] text[i] == word[i] || ('A' <= word[i] <= 'Z'
            && text[i] as u32 == word[i] as u32 + 32)
}

/// A connection goes through a proxy exactly where its chain has a first entry that spells none of
/// the words for direct, rejected and dropped traffic. The other entries make no difference.
pub proof fn proxied_connections_by_their_exit(connection: Connection)
    ensures
        is_proxied(connection) <==> {
            &&& connection.chains@.len() > 0
            &&& !spells(connection.chains@[0]@, "DIRECT"@)
            &&& !spells(connection.chains@[0]@, "REJECT"@)
            &&& !spells(connection.chains@[0]@, "REJECT-DROP"@)
        },
{
    if connection.chains@.len() > 0 {
        let exit = connection.chains@[0]@;
        reveal_strlit("DIRECT");
        reveal_strlit("REJECT");
        reveal_strlit("REJECT-DROP");
        lemma_spells(exit, "DIRECT"@);
        lemma_spells(exit, "REJECT"@);
        lemma_spells(exit, "REJECT-DROP"@);
    }
}

/// A text spells an upper case word exactly where it is that word once in upper case.
proof fn lemma_spells(text: Seq<char>, word: Seq<char>)
    requires
        forall|i: int| 0 <= i < word.len() ==> !('a' <= #[trigger] word[i] <= 'z'),
    ensures
        spells(text, word) <==> uppercased(text) == word,
{
    if spells(text, word) {
        assert forall|i: int| 0 <= i < word.len() implies uppercased(text)[i] == word[i] by {
            assert(text[i] == word[i] || ('A' <= word[i] <= 'Z' && text[i] as u32 == word[i] as u32
                + 32));
            vstd::utf8::char_u32_cast(word[i], word[i] as u32);
        }
        assert(uppercased(text) =~= word);
    }
    if uppercased(text) == word {
        assert forall|i: int| 0 <= i < word.len() implies #[trigger] text[i] == word[i] || ('A'
            <= word[i] <= 'Z' && text[i] as u32 == word[i] as u32 + 32) by {
            assert(uppercased(text)[i] == ascii_upper(text[i]));
        }
    }
}

/// A frame of one connection in numbers. Through a proxy and known with other counters, it counts
/// with what it has sent since as upload and with what it has received since as download, nothing
/// where a counter went back. Unknown, or through no proxy, it does not count.
pub proof fn one_connection_in_numbers(
    known: Map<Seq<char>, ConnectionTrafficSnapshot>,
    connection: Connection,
)
    ensures
        ({
            let frame = seq![connection];
            let goes_through_a_proxy = connection.chains@.len() > 0 && !spells(
                connection.chains@[0]@,
                "DIRECT"@,
            ) && !spells(connection.chains@[0]@, "REJECT"@) && !spells(
                connection.chains@[0]@,
                "REJECT-DROP"@,
            );
            let before = known[connection.id@];
            if goes_through_a_proxy && known.contains_key(connection.id@) {
                &&& before.upload <= connection.upload ==> total_sent(known, frame)
                    == connection.upload - before.upload
                &&& before.upload > connection.upload ==> total_sent(known, frame) == 0
                &&& before.download <= connection.download ==> total_received(known, frame)
                    == connection.download - before.download
                &&& before.download > connection.download ==> total_received(known, frame) == 0
            } else {
                total_sent(known, frame) == 0 && total_received(known, frame) == 0
            }
        }),
{
    let none = Seq::<Connection>::empty();
    one_more_connection_in_numbers(known, none, connection, -1);
    assert(none.push(connection) =~= seq![connection]);
}

/// One more connection of a frame in numbers. It is compared with the last one of the same
/// identifier in the frame, at `at`, or else with what was known before the frame. Through a proxy
/// it adds what it has sent since to the upload and what it has received since to the download,
/// nothing where a counter went back. New, or through no proxy, it adds nothing.
pub proof fn one_more_connection_in_numbers(
    known: Map<Seq<char>, ConnectionTrafficSnapshot>,
    frame: Seq<Connection>,
    connection: Connection,
    at: int,
)
    requires
        -1 <= at < frame.len(),
        at >= 0 ==> frame[at].id@ == connection.id@,
        forall|i: int| at < i < frame.len() ==> (#[trigger] frame[i]).id@ != connection.id@,
    ensures
        total_sent(known, Seq::<Connection>::empty()) == 0,
        total_received(known, Seq::<Connection>::empty()) == 0,
        ({
            let goes_through_a_proxy = connection.chains@.len() > 0 && !spells(
                connection.chains@[0]@,
                "DIRECT"@,
            ) && !spells(connection.chains@[0]@, "REJECT"@) && !spells(
                connection.chains@[0]@,
                "REJECT-DROP"@,
            );
            let (upload, download) = if at >= 0 {
                (frame[at].upload, frame[at].download)
            } else {
                (known[connection.id@].upload, known[connection.id@].download)
            };
            let more_sent = total_sent(known, frame.push(connection)) - total_sent(known, frame);
            let more_received = total_received(known, frame.push(connection)) - total_received(
                known,
                frame,
            );
            if goes_through_a_proxy && (at >= 0 || known.contains_key(connection.id@)) {
                &&& upload <= connection.upload ==> more_sent == connection.upload - upload
                &&& upload > connection.upload ==> more_sent == 0
                &&& download <= connection.download ==> more_received == connection.download
                    - download
                &&& download > connection.download ==> more_received == 0
            } else {
                more_sent == 0 && more_received == 0
            }
        }),
{
    assert(frame.push(connection).drop_last() =~= frame);
    proxied_connections_by_their_exit(connection);
    lemma_after_frame(known, frame, connection.id@);
    lemma_last_seen(frame, connection.id@, at);
}

/// The last connection with an identifier is the one behind which there is no other.
proof fn lemma_last_seen(frame: Seq<Connection>, id: Seq<char>, at: int)
    requires
        -1 <= at < frame.len(),
        at >= 0 ==> frame[at].id@ == id,
        forall|i: int| at < i < frame.len() ==> (#[trigger] frame[i]).id@ != id,
    ensures
        last_seen(frame, id) == (if at >= 0 {
            Some(frame[at])
        } else {
            None
        }),
    decreases frame.len(),
{
    if at < frame.len() - 1 {
        let rest = frame.drop_last();
        assert(frame[frame.len() - 1].id@ != id);
        assert forall|i: int| at < i < rest.len() implies (#[trigger] rest[i]).id@ != id by {
            assert(frame[i].id@ != id);
        }
        lemma_last_seen(rest, id, at);
    }
}

/// After a frame, the counters of its last connection of an identifier, at `at`, are known under
/// that identifier; where there is none, nothing is. What was known before makes no difference.
pub proof fn known_counters_in_numbers(frame: Seq<Connection>, id: Seq<char>, at: int)
    requires
        -1 <= at < frame.len(),
        at >= 0 ==> frame[at].id@ == id,
        forall|i: int| at < i < frame.len() ==> (#[trigger] frame[i]).id@ != id,
    ensures
        frame_counters(frame).contains_key(id) <==> at >= 0,
        at >= 0 ==> frame_counters(frame)[id].upload == frame[at].upload,
        at >= 0 ==> frame_counters(frame)[id].download == frame[at].download,
{
    lemma_after_frame(Map::empty(), frame, id);
    lemma_last_seen(frame, id, at);
}

/// Two frames in a row of one connection through a proxy: the second gives what was sent and
/// received in between, whatever the chain behind the exit is and whatever was known before.
pub proof fn traffic_between_two_frames(first: Connection, second: Connection)
    requires
        first.id@ == second.id@,
        second.chains@.len() > 0,
        !spells(second.chains@[0]@, "DIRECT"@),
        !spells(second.chains@[0]@, "REJECT"@),
        !spells(second.chains@[0]@, "REJECT-DROP"@),
        first.upload <= second.upload,
        first.download <= second.download,
    ensures
        total_sent(frame_counters(seq![first]), seq![second]) == second.upload - first.upload,
        total_received(frame_counters(seq![first]), seq![second]) == second.download
            - first.download,
        fits(frame_counters(seq![first]), seq![second]),
{
    known_counters_in_numbers(seq![first], first.id@, 0);
    one_connection_in_numbers(frame_counters(seq![first]), second);
}

/// Totals fit exactly where both stay below two to the power of sixty-four.
pub proof fn fitting_totals_in_numbers(
    known: Map<Seq<char>, ConnectionTrafficSnapshot>,
    frame: Seq<Connection>,
)
    ensures
        fits(known, frame) <==> total_sent(known, frame) <= 0xFFFF_FFFF_FFFF_FFFF && total_received(
            known,
            frame,
        ) <= 0xFFFF_FFFF_FFFF_FFFF,
{
}

/// The counters that are taken of a connection are its own.
pub proof fn counters_are_those_of_the_connection(connection: Connection)
    ensures
        counters(connection).upload == connection.upload,
        counters(connection).download == connection.download,
{
}

} // verus!
