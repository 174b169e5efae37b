//! Per-address scores and block marks: the table of tracked addresses, what a
//! pattern match does to it, and which addresses are forgotten as time passes.

use vstd::prelude::*;
use crate::firewall::{make_command, with_arg, tool, CommandView, FwCommand};
use crate::text::{contains_char, decimal, decimal_string};
use crate::patterns::{first_group_match, match_message, match_view, FilterGroup};

verus! {

/// What is known of one address. Scores are in thousandths of a point.
#[derive(Clone, Copy, PartialEq, Eq, Structural, Debug)]
pub struct IpState {
    /// Accumulated score, in thousandths of a point.
    pub score: i64,
    /// When the address was last matched, in nanoseconds since the Unix epoch.
    pub last_seen: u64,
    /// Whether a block of the address has been requested.
    pub blocked: bool,
    /// Whether the address is an IPv6 one.
    pub is_ipv6: bool,
}

/// An address together with its state.
pub struct IpEntry {
    pub ip: String,
    pub state: IpState,
}

/// The tracked addresses, each at most once, with their states.
pub struct IpTable {
    entries: Vec<IpEntry>,
}

/// No address occurs twice in `s`.
pub open spec fn keys_distinct(s: Seq<IpEntry>) -> bool {
    forall|i: int, j: int| 0 <= i < j < s.len() ==> #[trigger] s[i].ip@ != #[trigger] s[j].ip@
}

spec fn holds(s: Seq<IpEntry>, k: Seq<char>) -> bool {
    exists|i: int| 0 <= i < s.len() && #[trigger] s[i].ip@ == k
}

spec fn index_of(s: Seq<IpEntry>, k: Seq<char>) -> int {
    choose|i: int| 0 <= i < s.len() && #[trigger] s[i].ip@ == k
}

/// The map from address to state that a list of entries stands for.
spec fn entries_map(s: Seq<IpEntry>) -> Map<Seq<char>, IpState> {
    Map::new(|k: Seq<char>| holds(s, k), |k: Seq<char>| s[index_of(s, k)].state)
}

proof fn lemma_entry(s: Seq<IpEntry>, i: int)
    requires
        keys_distinct(s),
        0 <= i < s.len(),
    ensures
        entries_map(s).contains_key(s[i].ip@),
        entries_map(s)[s[i].ip@] == s[i].state,
{
    let k = s[i].ip@;
    assert(holds(s, k));
    let j = index_of(s, k);
    if j != i {
        if j < i {
            assert(s[j].ip@ != s[i].ip@);
        } else {
            assert(s[i].ip@ != s[j].ip@);
        }
    }
}

proof fn lemma_map_len(s: Seq<IpEntry>)
    requires
        keys_distinct(s),
    ensures
        entries_map(s).len() == s.len(),
{
    let keys = s.map_values(|e: IpEntry| e.ip@);
    assert forall|i: int, j: int| 0 <= i < keys.len() && 0 <= j < keys.len() && i != j
        implies keys[i] != keys[j] by {
        if i < j {
            assert(s[i].ip@ != s[j].ip@);
        } else {
            assert(s[j].ip@ != s[i].ip@);
        }
    }
    keys.unique_seq_to_set();
    assert forall|k: Seq<char>| entries_map(s).dom().contains(k) <==> keys.to_set().contains(k) by {
        if entries_map(s).dom().contains(k) {
            let i = index_of(s, k);
            assert(keys[i] == k);
        }
        if keys.to_set().contains(k) {
            let i = choose|i: int| 0 <= i < keys.len() && keys[i] == k;
            assert(s[i].ip@ == k);
        }
    }
    assert(entries_map(s).dom() =~= keys.to_set());
}

/// Replacing the entry at `i` by one of the same address changes the map at
/// that address only.
proof fn lemma_update(s: Seq<IpEntry>, i: int, e: IpEntry)
    requires
        keys_distinct(s),
        0 <= i < s.len(),
        e.ip@ == s[i].ip@,
    ensures
        keys_distinct(s.update(i, e)),
        entries_map(s.update(i, e)) == entries_map(s).insert(e.ip@, e.state),
{
    let t = s.update(i, e);
    assert forall|a: int, b: int| 0 <= a < b < t.len() implies #[trigger] t[a].ip@ != #[trigger] t[b].ip@ by {
        assert(s[a].ip@ != s[b].ip@);
    }
    lemma_entry(t, i);
    assert forall|k: Seq<char>| #![auto] entries_map(t).contains_key(k) <==> entries_map(s).insert(e.ip@, e.state).contains_key(k) by {
        if holds(t, k) {
            let j = index_of(t, k);
            if j != i {
                assert(s[j].ip@ == k);
            }
        }
        if holds(s, k) {
            let j = index_of(s, k);
            assert(t[j].ip@ == k);
        }
    }
    assert forall|k: Seq<char>| #![auto] entries_map(t).contains_key(k) && k != e.ip@
        implies entries_map(t)[k] == entries_map(s)[k] by {
        let j = index_of(t, k);
        lemma_entry(t, j);
        lemma_entry(s, j);
    }
    assert(entries_map(t) =~= entries_map(s).insert(e.ip@, e.state));
}

/// Appending an entry of an untracked address adds it to the map.
proof fn lemma_push(s: Seq<IpEntry>, e: IpEntry)
    requires
        keys_distinct(s),
        !entries_map(s).contains_key(e.ip@),
    ensures
        keys_distinct(s.push(e)),
        entries_map(s.push(e)) == entries_map(s).insert(e.ip@, e.state),
{
    let t = s.push(e);
    let n = s.len() as int;
    assert forall|a: int, b: int| 0 <= a < b < t.len() implies #[trigger] t[a].ip@ != #[trigger] t[b].ip@ by {
        if b == n {
            assert(!holds(s, e.ip@));
            assert(s[a].ip@ != e.ip@);
        } else {
            assert(s[a].ip@ != s[b].ip@);
        }
    }
    lemma_entry(t, n);
    assert forall|k: Seq<char>| #![auto] entries_map(t).contains_key(k) <==> entries_map(s).insert(e.ip@, e.state).contains_key(k) by {
        if holds(t, k) {
            let j = index_of(t, k);
            if j != n {
                assert(s[j].ip@ == k);
            }
        }
        if holds(s, k) {
            let j = index_of(s, k);
            assert(t[j].ip@ == k);
        }
    }
    assert forall|k: Seq<char>| #![auto] entries_map(t).contains_key(k) && k != e.ip@
        implies entries_map(t)[k] == entries_map(s)[k] by {
        let j = index_of(t, k);
        lemma_entry(t, j);
        lemma_entry(s, j);
    }
    assert(entries_map(t) =~= entries_map(s).insert(e.ip@, e.state));
}

/// Whether an address last seen at `state.last_seen` has been idle for more
/// than `expires` whole seconds at `now`. A last sighting later than `now`, or
/// a negative `expires`, never expires.
pub open spec fn expired(state: IpState, now: u64, expires: i32) -> bool {
    &&& state.last_seen <= now
    &&& expires >= 0
    &&& (now - state.last_seen) / 1_000_000_000 > expires
}

/// The addresses of `m` that have not expired at `now`, with their states.
pub open spec fn unexpired(m: Map<Seq<char>, IpState>, now: u64, expires: i32) -> Map<Seq<char>, IpState> {
    Map::new(|k: Seq<char>| m.contains_key(k) && !expired(m[k], now, expires), |k: Seq<char>| m[k])
}

/// Removing the entry at `i` drops its address from the map.
proof fn lemma_remove(s: Seq<IpEntry>, i: int)
    requires
        keys_distinct(s),
        0 <= i < s.len(),
    ensures
        keys_distinct(s.remove(i)),
        entries_map(s.remove(i)) == entries_map(s).remove(s[i].ip@),
{
    let t = s.remove(i);
    let key = s[i].ip@;
    assert forall|a: int, b: int| 0 <= a < b < t.len() implies #[trigger] t[a].ip@ != #[trigger] t[b].ip@ by {
        let a0 = if a < i { a } else { a + 1 };
        let b0 = if b < i { b } else { b + 1 };
        assert(t[a] == s[a0]);
        assert(t[b] == s[b0]);
        assert(s[a0].ip@ != s[b0].ip@);
    }
    assert forall|k: Seq<char>| #![auto] entries_map(t).contains_key(k) <==> entries_map(s).remove(key).contains_key(k) by {
        if holds(t, k) {
            let j = index_of(t, k);
            let j0 = if j < i { j } else { j + 1 };
            assert(s[j0].ip@ == k);
            if k == key {
                if j0 < i {
                    assert(s[j0].ip@ != s[i].ip@);
                } else {
                    assert(s[i].ip@ != s[j0].ip@);
                }
            }
        }
        if holds(s, k) && k != key {
            let j = index_of(s, k);
            if j < i {
                assert(t[j].ip@ == k);
            } else {
                assert(j != i);
                assert(t[j - 1].ip@ == k);
            }
        }
    }
    assert forall|k: Seq<char>| #![auto] entries_map(t).contains_key(k)
        implies entries_map(t)[k] == entries_map(s)[k] by {
        let j = index_of(t, k);
        let j0 = if j < i { j } else { j + 1 };
        lemma_entry(t, j);
        assert(t[j] == s[j0]);
        lemma_entry(s, j0);
    }
    assert(entries_map(t) =~= entries_map(s).remove(key));
}

/// `kept` holds, in order, the entries of `src` before index `i` that have
/// not expired; `origin` gives the index in `src` of each of them.
spec fn kept_prefix(src: Seq<IpEntry>, kept: Seq<IpEntry>, origin: Seq<int>, i: int, now: u64, expires: i32) -> bool {
    &&& keys_distinct(kept)
    &&& origin.len() == kept.len()
    &&& forall|j: int| 0 <= j < kept.len() ==> 0 <= #[trigger] origin[j] < i && kept[j] == src[origin[j]]
        && !expired(src[origin[j]].state, now, expires)
    &&& forall|a: int| 0 <= a < i && !expired(#[trigger] src[a].state, now, expires) ==> exists|j: int|
        0 <= j < kept.len() && #[trigger] origin[j] == a
}

proof fn lemma_kept_skip(src: Seq<IpEntry>, kept: Seq<IpEntry>, origin: Seq<int>, i: int, now: u64, expires: i32)
    requires
        0 <= i < src.len(),
        kept_prefix(src, kept, origin, i, now, expires),
        expired(src[i].state, now, expires),
    ensures
        kept_prefix(src, kept, origin, i + 1, now, expires),
{
}

proof fn lemma_kept_push(src: Seq<IpEntry>, kept: Seq<IpEntry>, origin: Seq<int>, i: int, now: u64, expires: i32)
    requires
        keys_distinct(src),
        0 <= i < src.len(),
        kept_prefix(src, kept, origin, i, now, expires),
        !expired(src[i].state, now, expires),
    ensures
        kept_prefix(src, kept.push(src[i]), origin.push(i), i + 1, now, expires),
{
    let e = src[i];
    let t = kept.push(e);
    let o = origin.push(i);
    assert forall|j: int| 0 <= j < kept.len() implies kept[j].ip@ != e.ip@ by {
        let a = origin[j];
        assert(src[a].ip@ != src[i].ip@);
    }
    assert forall|a: int, b: int| 0 <= a < b < t.len() implies #[trigger] t[a].ip@ != #[trigger] t[b].ip@ by {
        if b == kept.len() {
            assert(t[a] == kept[a]);
        } else {
            assert(kept[a].ip@ != kept[b].ip@);
        }
    }
    assert forall|j: int| 0 <= j < t.len() implies 0 <= #[trigger] o[j] < i + 1 && t[j] == src[o[j]]
        && !expired(src[o[j]].state, now, expires) by {
        if j < kept.len() {
            assert(o[j] == origin[j]);
        }
    }
    assert forall|a: int| 0 <= a < i + 1 && !expired(#[trigger] src[a].state, now, expires) implies exists|j: int|
        0 <= j < t.len() && #[trigger] o[j] == a by {
        if a < i {
            let j = choose|j: int| 0 <= j < kept.len() && #[trigger] origin[j] == a;
            assert(o[j] == a);
        } else {
            assert(o[kept.len() as int] == a);
        }
    }
}

proof fn lemma_kept_done(src: Seq<IpEntry>, kept: Seq<IpEntry>, origin: Seq<int>, now: u64, expires: i32)
    requires
        keys_distinct(src),
        kept_prefix(src, kept, origin, src.len() as int, now, expires),
    ensures
        keys_distinct(kept),
        entries_map(kept) == unexpired(entries_map(src), now, expires),
{
    let m = entries_map(src);
    let t = kept;
    assert forall|k: Seq<char>| #![auto] entries_map(t).contains_key(k) <==> unexpired(m, now, expires).contains_key(k) by {
        if holds(t, k) {
            let j = index_of(t, k);
            lemma_entry(src, origin[j]);
        }
        if m.contains_key(k) && !expired(m[k], now, expires) {
            let a = index_of(src, k);
            lemma_entry(src, a);
            let j = choose|j: int| 0 <= j < t.len() && #[trigger] origin[j] == a;
            assert(t[j].ip@ == k);
        }
    }
    assert forall|k: Seq<char>| #![auto] entries_map(t).contains_key(k)
        implies entries_map(t)[k] == m[k] by {
        let j = index_of(t, k);
        lemma_entry(t, j);
        lemma_entry(src, origin[j]);
    }
    assert(entries_map(t) =~= unexpired(m, now, expires));
}

impl IpTable {
    #[verifier::type_invariant]
    spec fn inv(self) -> bool {
        keys_distinct(self.entries@)
    }
}

impl View for IpTable {
    type V = Map<Seq<char>, IpState>;

    closed spec fn view(&self) -> Map<Seq<char>, IpState> {
        entries_map(self.entries@)
    }
}

fn copy_entry(e: &IpEntry) -> (res: IpEntry)
    ensures
        res == *e,
{
    IpEntry { ip: e.ip.clone(), state: e.state }
}

impl IpTable {
    /// An empty table.
    pub fn new() -> (res: IpTable)
        ensures
            res@ == Map::<Seq<char>, IpState>::empty(),
    {
        let res = IpTable { entries: Vec::new() };
        assert(res@ =~= Map::<Seq<char>, IpState>::empty());
        res
    }

    fn find(&self, ip: &String) -> (res: Option<usize>)
        ensures
            match res {
                Some(i) => i < self.entries@.len() && self.entries@[i as int].ip@ == ip@,
                None => !self@.contains_key(ip@),
            },
    {
        let mut i: usize = 0;
        while i < self.entries.len()
            invariant
                i <= self.entries@.len(),
                forall|j: int| 0 <= j < i ==> self.entries@[j].ip@ != ip@,
            decreases self.entries@.len() - i,
        {
            if self.entries[i].ip == *ip {
                return Some(i);
            }
            i = i + 1;
        }
        None
    }

    /// Whether `ip` is tracked.
    pub fn contains_key(&self, ip: &String) -> (res: bool)
        ensures
            res == self@.contains_key(ip@),
    {
        proof {
            use_type_invariant(self);
        }
        match self.find(ip) {
            Some(i) => {
                proof {
                    lemma_entry(self.entries@, i as int);
                }
                true
            },
            None => false,
        }
    }

    /// The state of `ip`, where it is tracked.
    pub fn get(&self, ip: &String) -> (res: Option<&IpState>)
        ensures
            match res {
                Some(s) => self@.contains_key(ip@) && self@[ip@] == *s,
                None => !self@.contains_key(ip@),
            },
    {
        proof {
            use_type_invariant(self);
        }
        match self.find(ip) {
            Some(i) => {
                proof {
                    lemma_entry(self.entries@, i as int);
                }
                Some(&self.entries[i].state)
            },
            None => None,
        }
    }

    /// Tracks `ip` with `state`, in place of its earlier state if it had one,
    /// which is returned.
    pub fn insert(&mut self, ip: String, state: IpState) -> (res: Option<IpState>)
        ensures
            final(self)@ == old(self)@.insert(ip@, state),
            res == (if old(self)@.contains_key(ip@) { Some(old(self)@[ip@]) } else { None }),
    {
        proof {
            use_type_invariant(&*self);
        }
        let mut entries: Vec<IpEntry> = Vec::new();
        match self.find(&ip) {
            Some(i) => {
                proof {
                    lemma_entry(self.entries@, i as int);
                }
                let prev = self.entries[i].state;
                std::mem::swap(&mut entries, &mut self.entries);
                let ghost before = entries@;
                let e = IpEntry { ip, state };
                proof {
                    lemma_update(before, i as int, e);
                }
                entries.set(i, e);
                self.entries = entries;
                Some(prev)
            },
            None => {
                std::mem::swap(&mut entries, &mut self.entries);
                let ghost before = entries@;
                let e = IpEntry { ip, state };
                proof {
                    lemma_push(before, e);
                }
                entries.push(e);
                self.entries = entries;
                None
            },
        }
    }

    /// Stops tracking `ip`, returning its state if it was tracked.
    pub fn remove(&mut self, ip: &String) -> (res: Option<IpState>)
        ensures
            final(self)@ == old(self)@.remove(ip@),
            res == (if old(self)@.contains_key(ip@) { Some(old(self)@[ip@]) } else { None }),
    {
        proof {
            use_type_invariant(&*self);
        }
        match self.find(ip) {
            Some(i) => {
                proof {
                    lemma_entry(self.entries@, i as int);
                    lemma_remove(self.entries@, i as int);
                }
                let mut entries: Vec<IpEntry> = Vec::new();
                std::mem::swap(&mut entries, &mut self.entries);
                let removed = entries.remove(i);
                self.entries = entries;
                Some(removed.state)
            },
            None => {
                assert(old(self)@.remove(ip@) =~= old(self)@);
                None
            },
        }
    }

    /// Stops tracking every address that has expired at `now`.
    pub fn retain_unexpired(&mut self, now: u64, expires: i32)
        ensures
            final(self)@ == unexpired(old(self)@, now, expires),
    {
        proof {
            use_type_invariant(&*self);
        }
        let mut entries: Vec<IpEntry> = Vec::new();
        std::mem::swap(&mut entries, &mut self.entries);
        let ghost src = entries@;
        let mut kept: Vec<IpEntry> = Vec::new();
        let mut i: usize = 0;
        let ghost mut origin: Seq<int> = Seq::empty();
        while i < entries.len()
            invariant
                entries@ == src,
                keys_distinct(src),
                i <= src.len(),
                kept_prefix(src, kept@, origin, i as int, now, expires),
            decreases src.len() - i,
        {
            let st = entries[i].state;
            let gone = st.last_seen <= now && expires >= 0 && (now - st.last_seen) / 1_000_000_000 > expires as u64;
            assert(gone == expired(src[i as int].state, now, expires));
            if !gone {
                let e = copy_entry(&entries[i]);
                let ghost before = kept@;
                kept.push(e);
                proof {
                    lemma_kept_push(src, before, origin, i as int, now, expires);
                    origin = origin.push(i as int);
                }
            } else {
                proof {
                    lemma_kept_skip(src, kept@, origin, i as int, now, expires);
                }
            }
            i = i + 1;
        }
        proof {
            lemma_kept_done(src, kept@, origin, now, expires);
        }
        self.entries = kept;
    }

    /// Every tracked address with its state, each once, in no particular order.
    pub fn snapshot(&self) -> (res: Vec<IpEntry>)
        ensures
            res@.len() == self@.len(),
            keys_distinct(res@),
            forall|i: int| 0 <= i < res@.len() ==> #[trigger] self@.contains_key(res@[i].ip@)
                && self@[res@[i].ip@] == res@[i].state,
    {
        proof {
            use_type_invariant(self);
            lemma_map_len(self.entries@);
        }
        let mut out: Vec<IpEntry> = Vec::new();
        let mut i: usize = 0;
        while i < self.entries.len()
            invariant
                i <= self.entries@.len(),
                keys_distinct(self.entries@),
                out@ == self.entries@.take(i as int),
            decreases self.entries@.len() - i,
        {
            out.push(copy_entry(&self.entries[i]));
            assert(self.entries@.take(i + 1) =~= self.entries@.take(i as int).push(self.entries@[i as int]));
            i = i + 1;
        }
        assert(self.entries@.take(i as int) =~= self.entries@);
        proof {
            assert forall|j: int| 0 <= j < out@.len() implies #[trigger] self@.contains_key(out@[j].ip@)
                && self@[out@[j].ip@] == out@[j].state by {
                lemma_entry(self.entries@, j);
            }
        }
        out
    }

    /// The number of tracked addresses.
    pub fn len(&self) -> (res: usize)
        ensures
            res == self@.len(),
    {
        proof {
            use_type_invariant(self);
            lemma_map_len(self.entries@);
        }
        self.entries.len()
    }
}


#[verifier::external_type_specification]
#[verifier::external_body]
pub struct ExSystemTime(std::time::SystemTime);

/// `std::time::SystemTime::now`: the system clock's current time. Nothing is
/// promised of it.
#[verifier::external_body]
fn system_now() -> (res: std::time::SystemTime) {
    std::time::SystemTime::now()
}

/// `SystemTime::duration_since(UNIX_EPOCH)`: the time elapsed since the Unix
/// epoch, `None` for a time before it. Nothing is promised of the value.
#[verifier::external_body]
fn since_unix_epoch(t: &std::time::SystemTime) -> (res: Option<std::time::Duration>) {
    match t.duration_since(std::time::UNIX_EPOCH) {
        Ok(elapsed) => Some(elapsed),
        Err(_) => None,
    }
}

/// `Duration::as_nanos`: the whole nanoseconds of a duration. Nothing is
/// promised of the value.
#[verifier::external_body]
fn duration_nanos(d: &std::time::Duration) -> (res: u128) {
    d.as_nanos()
}

/// The current time as nanoseconds since the Unix epoch: 0 for a clock set
/// before the epoch, and the largest `u64` past the year 2554.
fn clock_now_nanos() -> (res: u64) {
    let now = system_now();
    match since_unix_epoch(&now) {
        Some(elapsed) => {
            let nanos = duration_nanos(&elapsed);
            if nanos > u64::MAX as u128 {
                u64::MAX
            } else {
                nanos as u64
            }
        },
        None => 0,
    }
}

/// `a + b`, held to the range of `i64`.
pub open spec fn saturating_add(a: i64, b: i64) -> i64 {
    if a + b > i64::MAX {
        i64::MAX
    } else if a + b < i64::MIN {
        i64::MIN
    } else {
        (a + b) as i64
    }
}

fn add_saturating(a: i64, b: i64) -> (res: i64)
    ensures
        res == saturating_add(a, b),
{
    match a.checked_add(b) {
        Some(sum) => sum,
        None => if b > 0 { i64::MAX } else { i64::MIN },
    }
}

/// The name of the ipset that holds blocked addresses of the family.
pub open spec fn set_name(is_ipv6: bool) -> Seq<char> {
    if is_ipv6 { "tallow6"@ } else { "tallow"@ }
}

/// The ipset command that adds `ip` to its family's set, for `duration`
/// seconds when a positive duration is given and with the set's default
/// timeout otherwise.
pub open spec fn block_command(ipt_path: Seq<char>, ip: Seq<char>, is_ipv6: bool, duration: Option<i32>) -> CommandView {
    let base = seq!["-!"@, "add"@, set_name(is_ipv6), ip];
    let args = match duration {
        Some(d) => if d > 0 { base + seq!["timeout"@, decimal(d as int)] } else { base },
        None => base,
    };
    (crate::firewall::tool_path(ipt_path, "/ipset"@), args)
}

/// The state of `k` in `m`, where it is tracked.
pub open spec fn lookup(m: Map<Seq<char>, IpState>, k: Seq<char>) -> Option<IpState> {
    if m.contains_key(k) { Some(m[k]) } else { None }
}

/// The state of `ip` once a match of weight `weight` at `now` has been
/// counted: the weight added to its score and `now` as its last sighting; a new
/// address starts from a zero score, unblocked, IPv6 when it holds a `:`.
pub open spec fn counted(prev: Option<IpState>, ip: Seq<char>, weight: i64, now: u64) -> IpState {
    match prev {
        Some(s) => IpState { score: saturating_add(s.score, weight), last_seen: now, ..s },
        None => IpState { score: saturating_add(0, weight), last_seen: now, blocked: false, is_ipv6: ip.contains(':') },
    }
}

/// Whether a match blocks the address by its score: the score has reached
/// the threshold, no instant block applies and the address was not blocked.
pub open spec fn threshold_block(state: IpState, threshold: i64, instant_block_duration: i32) -> bool {
    instant_block_duration <= 0 && state.score >= threshold && !state.blocked
}

/// The state of `ip` after a match: counted, and marked blocked when an
/// instant block applies or its score has reached the threshold, unless the
/// address is `exempt` (whitelisted), which is never marked.
pub open spec fn after_match(
    prev: Option<IpState>,
    ip: Seq<char>,
    weight: i64,
    instant_block_duration: i32,
    now: u64,
    threshold: i64,
    exempt: bool,
) -> IpState {
    let c = counted(prev, ip, weight, now);
    IpState {
        blocked: c.blocked || (!exempt && (instant_block_duration > 0 || threshold_block(c, threshold, instant_block_duration))),
        ..c
    }
}

/// The block a match asks for: none for an `exempt` (whitelisted) address or
/// when `nocreate` forbids touching the firewall; otherwise an instant one of
/// the given duration when it is positive, one with the default timeout when
/// the score threshold is crossed, none else.
pub open spec fn requested_block(
    prev: Option<IpState>,
    ip: Seq<char>,
    weight: i64,
    instant_block_duration: i32,
    now: u64,
    threshold: i64,
    ipt_path: Seq<char>,
    exempt: bool,
    nocreate: bool,
) -> Option<CommandView> {
    let c = counted(prev, ip, weight, now);
    if exempt || nocreate {
        None
    } else if instant_block_duration > 0 {
        Some(block_command(ipt_path, ip, c.is_ipv6, Some(instant_block_duration)))
    } else if threshold_block(c, threshold, instant_block_duration) {
        Some(block_command(ipt_path, ip, c.is_ipv6, None))
    } else {
        None
    }
}

/// `after` and `request` are what counting a match of `ip` at `now` makes of
/// the table `before`: the address's state as `after_match` gives it, every
/// other address untouched, and the block `requested_block` asks for.
pub open spec fn counted_match(
    before: Map<Seq<char>, IpState>,
    after: Map<Seq<char>, IpState>,
    request: Option<CommandView>,
    ip: Seq<char>,
    weight: i64,
    instant_block_duration: i32,
    now: u64,
    threshold: i64,
    ipt_path: Seq<char>,
    exempt: bool,
    nocreate: bool,
) -> bool {
    &&& after == before.insert(ip, after_match(lookup(before, ip), ip, weight, instant_block_duration, now, threshold, exempt))
    &&& request == requested_block(lookup(before, ip), ip, weight, instant_block_duration, now, threshold, ipt_path, exempt, nocreate)
}

/// The view of an optional command.
pub open spec fn optional_command(c: Option<FwCommand>) -> Option<CommandView> {
    match c {
        Some(c) => Some(c@),
        None => None,
    }
}

/// Whether `ip` is one of the addresses of `whitelist`.
pub open spec fn listed(ip: Seq<char>, whitelist: Seq<String>) -> bool {
    exists|i: int| 0 <= i < whitelist.len() && #[trigger] whitelist[i]@ == ip
}

/// Whether `ip` is one of the addresses of `whitelist`, which are never blocked.
pub fn is_whitelisted(ip: &String, whitelist: &[String]) -> (res: bool)
    ensures
        res == listed(ip@, whitelist@),
        res == exists|i: int| 0 <= i < whitelist@.len() && whitelist@[i]@ == ip@,
{
    let mut i: usize = 0;
    while i < whitelist.len()
        invariant
            i <= whitelist@.len(),
            forall|j: int| 0 <= j < i ==> whitelist@[j]@ != ip@,
        decreases whitelist@.len() - i,
    {
        if whitelist[i] == *ip {
            return true;
        }
        i = i + 1;
    }
    false
}

/// The addresses seen in matches, their scores and block marks, and the
/// settings that decide blocks and expiry.
pub struct IpTracker {
    pub tracked_ips: IpTable,
    /// Score, in thousandths of a point, from which an address is blocked.
    pub block_threshold: i64,
    /// Directory that holds `ipset`.
    pub ipt_path: String,
    /// Seconds of inactivity after which an address is forgotten.
    pub expires_seconds: i32,
    /// When set, no block is requested: addresses are tracked and marked
    /// only, and the firewall is left alone.
    pub nocreate: bool,
    /// Addresses that are counted like any other but never blocked.
    pub whitelist: Vec<String>,
}

impl IpTracker {
    /// A tracker that tracks no address yet.
    pub fn new(block_threshold: i64, ipt_path: String, expires_seconds: i32) -> (res: IpTracker)
        ensures
            res.tracked_ips@ == Map::<Seq<char>, IpState>::empty(),
            res.block_threshold == block_threshold,
            res.ipt_path == ipt_path,
            res.expires_seconds == expires_seconds,
            !res.nocreate,
            res.whitelist@.len() == 0,
    {
        IpTracker { tracked_ips: IpTable::new(), block_threshold, ipt_path, expires_seconds, nocreate: false, whitelist: Vec::new() }
    }

    /// Whether `ip_address` is an IPv6 address, that is, holds a `:`.
    pub fn determine_is_ipv6(ip_address: &str) -> (res: bool)
        ensures
            res == ip_address@.contains(':'),
    {
        contains_char(ip_address, ':')
    }

    /// The ipset command that blocks `ip_address`: it adds the address to the
    /// `tallow6` set if `is_ipv6` and to `tallow` if not, for
    /// `duration_seconds` when that is given and positive.
    pub fn block_ip(&self, ip_address: &str, is_ipv6: bool, duration_seconds: Option<i32>) -> (res: FwCommand)
        ensures
            res@ == block_command(self.ipt_path@, ip_address@, is_ipv6, duration_seconds),
    {
        let ipset = tool(self.ipt_path.as_str(), "/ipset");
        let set = if is_ipv6 { "tallow6" } else { "tallow" };
        let cmd = with_arg(make_command(ipset, &["-!", "add", set]), String::from_str(ip_address));
        let res = match duration_seconds {
            Some(d) => if d > 0 {
                with_arg(with_arg(cmd, String::from_str("timeout")), decimal_string(d))
            } else {
                cmd
            },
            None => cmd,
        };
        assert(res@.1 =~= block_command(self.ipt_path@, ip_address@, is_ipv6, duration_seconds).1);
        res
    }

    fn count_match(
        &mut self,
        ip_address_str: String,
        weight: i64,
        instant_block_duration: i32,
        now: u64,
    ) -> (res: Option<FwCommand>)
        ensures
            counted_match(
                old(self).tracked_ips@,
                final(self).tracked_ips@,
                optional_command(res),
                ip_address_str@,
                weight,
                instant_block_duration,
                now,
                old(self).block_threshold,
                old(self).ipt_path@,
                listed(ip_address_str@, old(self).whitelist@),
                old(self).nocreate,
            ),
            final(self).block_threshold == old(self).block_threshold,
            final(self).ipt_path == old(self).ipt_path,
            final(self).expires_seconds == old(self).expires_seconds,
            final(self).nocreate == old(self).nocreate,
            final(self).whitelist == old(self).whitelist,
    {
        let ghost prev = lookup(self.tracked_ips@, ip_address_str@);
        let counted_state = match self.tracked_ips.get(&ip_address_str) {
            Some(s) => IpState { score: add_saturating(s.score, weight), last_seen: now, blocked: s.blocked, is_ipv6: s.is_ipv6 },
            None => IpState {
                score: add_saturating(0, weight),
                last_seen: now,
                blocked: false,
                is_ipv6: Self::determine_is_ipv6(ip_address_str.as_str()),
            },
        };
        assert(counted_state == counted(prev, ip_address_str@, weight, now));
        let exempt = is_whitelisted(&ip_address_str, self.whitelist.as_slice());
        let by_threshold = instant_block_duration <= 0 && counted_state.score >= self.block_threshold && !counted_state.blocked;
        let blocks = !exempt && (instant_block_duration > 0 || by_threshold);
        let request = if exempt || self.nocreate {
            None
        } else if instant_block_duration > 0 {
            Some(self.block_ip(ip_address_str.as_str(), counted_state.is_ipv6, Some(instant_block_duration)))
        } else if by_threshold {
            Some(self.block_ip(ip_address_str.as_str(), counted_state.is_ipv6, None))
        } else {
            None
        };
        let new_state = IpState { blocked: counted_state.blocked || blocks, ..counted_state };
        self.tracked_ips.insert(ip_address_str, new_state);
        request
    }

    /// Counts a match of `ip_address_str` with score `weight` at time `now`
    /// and returns the block it calls for, which the caller runs; none when
    /// `nocreate` is set, which leaves the table as it would be otherwise. The
    /// address is marked blocked whether or not that command succeeds. An
    /// address on the tracker's whitelist is counted but never marked blocked,
    /// and no block is returned for it.
    pub fn process_ip_match_at(
        &mut self,
        ip_address_str: String,
        weight: i64,
        instant_block_duration: i32,
        now: u64,
    ) -> (res: Option<FwCommand>)
        ensures
            counted_match(
                old(self).tracked_ips@,
                final(self).tracked_ips@,
                optional_command(res),
                ip_address_str@,
                weight,
                instant_block_duration,
                now,
                old(self).block_threshold,
                old(self).ipt_path@,
                listed(ip_address_str@, old(self).whitelist@),
                old(self).nocreate,
            ),
            final(self).block_threshold == old(self).block_threshold,
            final(self).ipt_path == old(self).ipt_path,
            final(self).expires_seconds == old(self).expires_seconds,
            final(self).nocreate == old(self).nocreate,
            final(self).whitelist == old(self).whitelist,
            listed(ip_address_str@, old(self).whitelist@) ==> res is None && final(self).tracked_ips@.contains_key(ip_address_str@)
                && final(self).tracked_ips@[ip_address_str@].blocked == (old(self).tracked_ips@.contains_key(ip_address_str@)
                && old(self).tracked_ips@[ip_address_str@].blocked),
    {
        self.count_match(ip_address_str, weight, instant_block_duration, now)
    }

    /// Counts a match of `ip_address_str` with score `weight` at the current
    /// time, as `process_ip_match_at` does, and returns the block it calls for.
    pub fn process_ip_match(&mut self, ip_address_str: String, weight: i64, instant_block_duration: i32) -> (res: Option<FwCommand>)
        ensures
            exists|now: u64| #[trigger] counted_match(
                old(self).tracked_ips@,
                final(self).tracked_ips@,
                optional_command(res),
                ip_address_str@,
                weight,
                instant_block_duration,
                now,
                old(self).block_threshold,
                old(self).ipt_path@,
                listed(ip_address_str@, old(self).whitelist@),
                old(self).nocreate,
            ),
            final(self).block_threshold == old(self).block_threshold,
            final(self).ipt_path == old(self).ipt_path,
            final(self).expires_seconds == old(self).expires_seconds,
            final(self).nocreate == old(self).nocreate,
            final(self).whitelist == old(self).whitelist,
            listed(ip_address_str@, old(self).whitelist@) ==> res is None && final(self).tracked_ips@.contains_key(ip_address_str@)
                && final(self).tracked_ips@[ip_address_str@].blocked == (old(self).tracked_ips@.contains_key(ip_address_str@)
                && old(self).tracked_ips@[ip_address_str@].blocked),
    {
        let now = clock_now_nanos();
        self.process_ip_match_at(ip_address_str, weight, instant_block_duration, now)
    }

    /// Handles one journal message: the first pattern that picks an address
    /// out of it counts a match of that address at the current time, and the
    /// block that calls for is returned. An address on the tracker's whitelist
    /// is counted too, but never marked blocked nor blocked. A message that no pattern matches
    /// changes nothing.
    pub fn handle_message(
        &mut self,
        message: &str,
        pattern_groups: &[FilterGroup],
    ) -> (res: Option<FwCommand>)
        ensures
            final(self).block_threshold == old(self).block_threshold,
            final(self).ipt_path == old(self).ipt_path,
            final(self).expires_seconds == old(self).expires_seconds,
            final(self).nocreate == old(self).nocreate,
            final(self).whitelist == old(self).whitelist,
            first_group_match(message@, pattern_groups@) is None ==> final(self).tracked_ips@ == old(self).tracked_ips@ && res is None,
            first_group_match(message@, pattern_groups@) is Some
                && listed(first_group_match(message@, pattern_groups@).unwrap().0, old(self).whitelist@) ==> res is None,
            first_group_match(message@, pattern_groups@) is Some ==> exists|now: u64| #[trigger] counted_match(
                old(self).tracked_ips@,
                final(self).tracked_ips@,
                optional_command(res),
                first_group_match(message@, pattern_groups@).unwrap().0,
                first_group_match(message@, pattern_groups@).unwrap().1,
                first_group_match(message@, pattern_groups@).unwrap().2,
                now,
                old(self).block_threshold,
                old(self).ipt_path@,
                listed(first_group_match(message@, pattern_groups@).unwrap().0, old(self).whitelist@),
                old(self).nocreate,
            ),
    {
        match match_message(message, pattern_groups) {
            Some((ip, weight, ban)) => {
                let ghost key = ip@;
                let res = self.process_ip_match(ip, weight, ban);
                proof {
                    assert(first_group_match(message@, pattern_groups@).unwrap().0 == key);
                    assert(first_group_match(message@, pattern_groups@).unwrap().1 == weight);
                    assert(first_group_match(message@, pattern_groups@).unwrap().2 == ban);
                }
                res
            },
            None => None,
        }
    }

    /// Forgets every address that has been idle for more than
    /// `expires_seconds` whole seconds at `now`, blocked or not.
    pub fn prune_at(&mut self, now: u64)
        ensures
            final(self).tracked_ips@ == unexpired(old(self).tracked_ips@, now, old(self).expires_seconds),
            final(self).block_threshold == old(self).block_threshold,
            final(self).ipt_path == old(self).ipt_path,
            final(self).expires_seconds == old(self).expires_seconds,
            final(self).nocreate == old(self).nocreate,
            final(self).whitelist == old(self).whitelist,
    {
        self.tracked_ips.retain_unexpired(now, self.expires_seconds);
    }

    /// Forgets, as `prune_at` does, every address idle for too long at the
    /// current time.
    pub fn prune(&mut self)
        ensures
            exists|now: u64| #![trigger unexpired(old(self).tracked_ips@, now, old(self).expires_seconds)]
                final(self).tracked_ips@ == unexpired(old(self).tracked_ips@, now, old(self).expires_seconds),
            final(self).block_threshold == old(self).block_threshold,
            final(self).ipt_path == old(self).ipt_path,
            final(self).expires_seconds == old(self).expires_seconds,
            final(self).nocreate == old(self).nocreate,
            final(self).whitelist == old(self).whitelist,
    {
        let now = clock_now_nanos();
        self.prune_at(now);
    }
}


/// After a match, an address is marked blocked exactly when it was blocked
/// before, or, unless it is whitelisted, an instant block applies or its score
/// has reached the threshold.
pub proof fn law_blocked_after_match(
    before: Map<Seq<char>, IpState>,
    after: Map<Seq<char>, IpState>,
    request: Option<CommandView>,
    ip: Seq<char>,
    weight: i64,
    instant_block_duration: i32,
    now: u64,
    threshold: i64,
    ipt_path: Seq<char>,
    exempt: bool,
    nocreate: bool,
)
    requires
        counted_match(before, after, request, ip, weight, instant_block_duration, now, threshold, ipt_path, exempt, nocreate),
    ensures
        after.contains_key(ip),
        after[ip].blocked == ((before.contains_key(ip) && before[ip].blocked) || (!exempt && (
            instant_block_duration > 0 || after[ip].score >= threshold))),
{
}

/// A match adds its weight to the address's score (from zero for a new
/// address, held to the range of `i64`) and records `now` as its last
/// sighting; a new address is IPv6 exactly when it holds a `:`, and an
/// address keeps its family.
pub proof fn law_score_accumulates(
    before: Map<Seq<char>, IpState>,
    after: Map<Seq<char>, IpState>,
    request: Option<CommandView>,
    ip: Seq<char>,
    weight: i64,
    instant_block_duration: i32,
    now: u64,
    threshold: i64,
    ipt_path: Seq<char>,
    exempt: bool,
    nocreate: bool,
)
    requires
        counted_match(before, after, request, ip, weight, instant_block_duration, now, threshold, ipt_path, exempt, nocreate),
    ensures
        after[ip].score == saturating_add(if before.contains_key(ip) { before[ip].score } else { 0 }, weight),
        after[ip].last_seen == now,
        after[ip].is_ipv6 == if before.contains_key(ip) { before[ip].is_ipv6 } else { ip.contains(':') },
{
}

/// A match changes nothing of any other address, and a blocked address stays
/// blocked.
pub proof fn law_match_is_local(
    before: Map<Seq<char>, IpState>,
    after: Map<Seq<char>, IpState>,
    request: Option<CommandView>,
    ip: Seq<char>,
    weight: i64,
    instant_block_duration: i32,
    now: u64,
    threshold: i64,
    ipt_path: Seq<char>,
    exempt: bool,
    nocreate: bool,
)
    requires
        counted_match(before, after, request, ip, weight, instant_block_duration, now, threshold, ipt_path, exempt, nocreate),
    ensures
        forall|k: Seq<char>| k != ip ==> (#[trigger] after.contains_key(k) == before.contains_key(k)),
        forall|k: Seq<char>| k != ip && before.contains_key(k) ==> #[trigger] after[k] == before[k],
        forall|k: Seq<char>| before.contains_key(k) && before[k].blocked ==> after.contains_key(k) && #[trigger] after[k].blocked,
{
}

/// Unless the address is whitelisted or `nocreate` is set, a block is
/// requested exactly when an instant block applies or the score threshold is
/// first reached: never again for an address already blocked without an
/// instant block. The request adds the address to the set of its family, with
/// the instant block's duration when there is one. A whitelisted address, or
/// any address under `nocreate`, gets no request.
pub proof fn law_block_requests(
    before: Map<Seq<char>, IpState>,
    after: Map<Seq<char>, IpState>,
    request: Option<CommandView>,
    ip: Seq<char>,
    weight: i64,
    instant_block_duration: i32,
    now: u64,
    threshold: i64,
    ipt_path: Seq<char>,
    exempt: bool,
    nocreate: bool,
)
    requires
        counted_match(before, after, request, ip, weight, instant_block_duration, now, threshold, ipt_path, exempt, nocreate),
    ensures
        exempt || nocreate ==> request is None,
        !exempt && !nocreate && instant_block_duration > 0 ==> request == Some(
            block_command(ipt_path, ip, after[ip].is_ipv6, Some(instant_block_duration)),
        ),
        instant_block_duration <= 0 && before.contains_key(ip) && before[ip].blocked ==> request is None,
        !exempt && !nocreate && instant_block_duration <= 0 ==> (request is Some <==> (!(before.contains_key(ip)
            && before[ip].blocked) && after[ip].score >= threshold)),
        request matches Some(c) ==> c.0 == crate::firewall::tool_path(ipt_path, "/ipset"@) && c.1[0] == "-!"@
            && c.1[1] == "add"@ && c.1[2] == (if after[ip].is_ipv6 { "tallow6"@ } else { "tallow"@ }) && c.1[3] == ip,
        request is Some ==> after[ip].blocked,
{
}

/// `nocreate` withholds every block request and changes nothing else: the
/// table after a match is the same with it set or not.
pub proof fn law_nocreate_only_withholds_requests(
    before: Map<Seq<char>, IpState>,
    after_quiet: Map<Seq<char>, IpState>,
    request_quiet: Option<CommandView>,
    after: Map<Seq<char>, IpState>,
    request: Option<CommandView>,
    ip: Seq<char>,
    weight: i64,
    instant_block_duration: i32,
    now: u64,
    threshold: i64,
    ipt_path: Seq<char>,
    exempt: bool,
)
    requires
        counted_match(before, after_quiet, request_quiet, ip, weight, instant_block_duration, now, threshold, ipt_path, exempt, true),
        counted_match(before, after, request, ip, weight, instant_block_duration, now, threshold, ipt_path, exempt, false),
    ensures
        request_quiet is None,
        after_quiet == after,
{
}

/// One call on a tracker's table: a match, counted as `process_ip_match` or
/// `handle_message` counts it, or a prune.
pub enum TableOp {
    Match { ip: Seq<char>, weight: i64, instant_block_duration: i32, now: u64, exempt: bool },
    Prune { now: u64 },
}

/// The table after one call.
pub open spec fn apply_op(m: Map<Seq<char>, IpState>, op: TableOp, threshold: i64, expires: i32) -> Map<Seq<char>, IpState> {
    match op {
        TableOp::Match { ip, weight, instant_block_duration, now, exempt } =>
            m.insert(ip, after_match(lookup(m, ip), ip, weight, instant_block_duration, now, threshold, exempt)),
        TableOp::Prune { now } => unexpired(m, now, expires),
    }
}

/// The table after a run of calls, in order.
pub open spec fn apply_ops(m: Map<Seq<char>, IpState>, ops: Seq<TableOp>, threshold: i64, expires: i32) -> Map<Seq<char>, IpState>
    decreases ops.len(),
{
    if ops.len() == 0 {
        m
    } else {
        apply_ops(apply_op(m, ops[0], threshold, expires), ops.drop_first(), threshold, expires)
    }
}

/// Every address of `m` is marked IPv6 exactly when it holds a `:`.
pub open spec fn families_consistent(m: Map<Seq<char>, IpState>) -> bool {
    forall|k: Seq<char>| #[trigger] m.contains_key(k) ==> m[k].is_ipv6 == k.contains(':')
}

/// Whether `k` is tracked after each call of the run.
pub open spec fn tracked_throughout(m: Map<Seq<char>, IpState>, ops: Seq<TableOp>, threshold: i64, expires: i32, k: Seq<char>) -> bool
    decreases ops.len(),
{
    ops.len() == 0 || {
        let next = apply_op(m, ops[0], threshold, expires);
        next.contains_key(k) && tracked_throughout(next, ops.drop_first(), threshold, expires, k)
    }
}

/// Over any run of matches and prunes from a table that holds it (such as
/// the empty table of a new tracker), every tracked address is marked IPv6
/// exactly when it holds a `:`.
pub proof fn law_families_stay_consistent(m: Map<Seq<char>, IpState>, ops: Seq<TableOp>, threshold: i64, expires: i32)
    requires
        families_consistent(m),
    ensures
        families_consistent(apply_ops(m, ops, threshold, expires)),
    decreases ops.len(),
{
    if ops.len() > 0 {
        let next = apply_op(m, ops[0], threshold, expires);
        assert(families_consistent(next));
        law_families_stay_consistent(next, ops.drop_first(), threshold, expires);
    }
}

/// A blocked address stays blocked through any run of matches and prunes
/// during which it stays tracked.
pub proof fn law_blocked_stays_blocked(m: Map<Seq<char>, IpState>, ops: Seq<TableOp>, threshold: i64, expires: i32, k: Seq<char>)
    requires
        m.contains_key(k),
        m[k].blocked,
        tracked_throughout(m, ops, threshold, expires, k),
    ensures
        apply_ops(m, ops, threshold, expires).contains_key(k),
        apply_ops(m, ops, threshold, expires)[k].blocked,
    decreases ops.len(),
{
    if ops.len() > 0 {
        let next = apply_op(m, ops[0], threshold, expires);
        assert(next[k].blocked);
        law_blocked_stays_blocked(next, ops.drop_first(), threshold, expires, k);
    }
}

/// The matches of a tracker with whitelist `whitelist`: each exempt exactly
/// when its address is on the whitelist.
pub open spec fn exempt_by(ops: Seq<TableOp>, whitelist: Seq<String>) -> bool {
    forall|i: int| 0 <= i < ops.len() ==> (#[trigger] ops[i] matches TableOp::Match { ip, exempt, .. } ==> exempt == listed(ip, whitelist))
}

/// Over any run of matches and prunes of a tracker, a whitelisted address
/// that was not blocked is never marked blocked.
pub proof fn law_whitelisted_never_blocked(
    m: Map<Seq<char>, IpState>,
    ops: Seq<TableOp>,
    threshold: i64,
    expires: i32,
    whitelist: Seq<String>,
    k: Seq<char>,
)
    requires
        listed(k, whitelist),
        m.contains_key(k) ==> !m[k].blocked,
        exempt_by(ops, whitelist),
    ensures
        apply_ops(m, ops, threshold, expires).contains_key(k) ==> !apply_ops(m, ops, threshold, expires)[k].blocked,
    decreases ops.len(),
{
    if ops.len() > 0 {
        let next = apply_op(m, ops[0], threshold, expires);
        let rest = ops.drop_first();
        assert(ops[0] matches TableOp::Match { ip, exempt, .. } ==> exempt == listed(ip, whitelist));
        assert forall|i: int| 0 <= i < rest.len() implies (#[trigger] rest[i] matches TableOp::Match { ip, exempt, .. } ==> exempt == listed(ip, whitelist)) by {
            assert(rest[i] == ops[i + 1]);
        }
        law_whitelisted_never_blocked(next, rest, threshold, expires, whitelist, k);
    }
}

/// The calls of a tracker are the steps of a run: a counted match at `now`
/// changes the table as the corresponding `TableOp::Match` does, and
/// `prune_at(now)` as `TableOp::Prune { now }` does (its contract is
/// `unexpired`, that step's own definition).
pub proof fn law_match_is_a_run_step(
    before: Map<Seq<char>, IpState>,
    after: Map<Seq<char>, IpState>,
    request: Option<CommandView>,
    ip: Seq<char>,
    weight: i64,
    instant_block_duration: i32,
    now: u64,
    threshold: i64,
    ipt_path: Seq<char>,
    exempt: bool,
    nocreate: bool,
)
    requires
        counted_match(before, after, request, ip, weight, instant_block_duration, now, threshold, ipt_path, exempt, nocreate),
    ensures
        forall|expires: i32| after == #[trigger] apply_op(before, TableOp::Match { ip, weight, instant_block_duration, now, exempt }, threshold, expires),
{
}

/// A block command adds the address to the set of its family: its arguments
/// are `-!`, `add`, `tallow6` for IPv6 and `tallow` otherwise, and the
/// address, followed by `timeout` and the duration in decimal exactly when a
/// positive duration is given; the program is `ipset` in the given directory.
pub proof fn law_block_command_adds(ipt_path: Seq<char>, ip: Seq<char>, is_ipv6: bool, duration: Option<i32>)
    ensures
        block_command(ipt_path, ip, is_ipv6, duration).0 == crate::text::trim_trailing_slashes(ipt_path) + "/ipset"@,
        block_command(ipt_path, ip, is_ipv6, duration).1.take(4)
            == seq!["-!"@, "add"@, if is_ipv6 { "tallow6"@ } else { "tallow"@ }, ip],
        (duration matches Some(d) && d > 0) ==> block_command(ipt_path, ip, is_ipv6, duration).1.len() == 6
            && block_command(ipt_path, ip, is_ipv6, duration).1[4] == "timeout"@
            && block_command(ipt_path, ip, is_ipv6, duration).1[5] == crate::text::decimal(duration.unwrap() as int),
        !(duration matches Some(d) && d > 0) ==> block_command(ipt_path, ip, is_ipv6, duration).1.len() == 4,
{
    let c = block_command(ipt_path, ip, is_ipv6, duration);
    assert(c.1.take(4) =~= seq!["-!"@, "add"@, if is_ipv6 { "tallow6"@ } else { "tallow"@ }, ip]);
}

/// Whether an address has expired depends on when it was last seen alone:
/// not on its score, its block mark or its family.
pub proof fn law_expiry_reads_last_seen_only(s1: IpState, s2: IpState, now: u64, expires: i32)
    requires
        s1.last_seen == s2.last_seen,
    ensures
        expired(s1, now, expires) == expired(s2, now, expires),
{
}

/// Pruning at `now` forgets every address last seen more than `expires`
/// whole seconds earlier, whatever its score, family or block mark, and keeps
/// every address seen within `expires` seconds, unchanged.
pub proof fn law_prune_forgets_idle(m: Map<Seq<char>, IpState>, now: u64, expires: i32, k: Seq<char>)
    requires
        m.contains_key(k),
        expires >= 0,
    ensures
        m[k].last_seen + (expires + 1) * 1_000_000_000 <= now ==> !unexpired(m, now, expires).contains_key(k),
        m[k].last_seen <= now < m[k].last_seen + (expires + 1) * 1_000_000_000 ==> unexpired(m, now, expires).contains_key(k)
            && unexpired(m, now, expires)[k] == m[k],
        now < m[k].last_seen ==> unexpired(m, now, expires).contains_key(k),
{
    let d = now - m[k].last_seen;
    if m[k].last_seen + (expires + 1) * 1_000_000_000 <= now {
        assert(d >= (expires + 1) * 1_000_000_000);
        assert(d / 1_000_000_000 >= expires + 1) by (nonlinear_arith)
            requires d >= (expires + 1) * 1_000_000_000, expires >= 0;
    }
    if m[k].last_seen <= now < m[k].last_seen + (expires + 1) * 1_000_000_000 {
        assert(d < (expires + 1) * 1_000_000_000);
        assert(d / 1_000_000_000 <= expires) by (nonlinear_arith)
            requires 0 <= d < (expires + 1) * 1_000_000_000, expires >= 0;
    }
}

/// An address is whitelisted exactly when it equals one of the entries.
pub proof fn law_whitelist_is_exact(ip: Seq<char>, whitelist: Seq<String>)
    ensures
        listed(ip, whitelist) <==> exists|i: int| 0 <= i < whitelist.len() && whitelist[i]@ == ip,
{
}

/// Forgetting idle addresses keeps every other address as it was, removes
/// every expired one, and pruning again at the same time changes nothing.
pub proof fn law_prune_exact(m: Map<Seq<char>, IpState>, now: u64, expires: i32)
    ensures
        forall|k: Seq<char>| #[trigger] unexpired(m, now, expires).contains_key(k) <==> (m.contains_key(k) && !expired(m[k], now, expires)),
        forall|k: Seq<char>| #[trigger] unexpired(m, now, expires).contains_key(k) ==> unexpired(m, now, expires)[k] == m[k],
        unexpired(unexpired(m, now, expires), now, expires) == unexpired(m, now, expires),
{
    assert(unexpired(unexpired(m, now, expires), now, expires) =~= unexpired(m, now, expires));
}

/// An address that has expired stays expired as time goes on: pruning later
/// never keeps an address that pruning earlier would remove.
pub proof fn law_prune_later_keeps_less(m: Map<Seq<char>, IpState>, earlier: u64, later: u64, expires: i32)
    requires
        earlier <= later,
    ensures
        forall|k: Seq<char>| #[trigger] unexpired(m, later, expires).contains_key(k) ==> unexpired(m, earlier, expires).contains_key(k),
{
    assert forall|k: Seq<char>| #[trigger] unexpired(m, later, expires).contains_key(k) implies unexpired(m, earlier, expires).contains_key(k) by {
        let s = m[k];
        if expired(s, earlier, expires) {
            assert((earlier - s.last_seen) <= (later - s.last_seen));
            lemma_div_monotone((earlier - s.last_seen) as int, (later - s.last_seen) as int);
        }
    }
}

proof fn lemma_div_monotone(a: int, b: int)
    requires
        0 <= a <= b,
    ensures
        a / 1_000_000_000 <= b / 1_000_000_000,
{
    vstd::arithmetic::div_mod::lemma_div_is_ordered(a, b, 1_000_000_000);
}

} // verus!
