use crate::pixelflut_gstreamer::hostspec::{
    char_in_class, chars_of, find_host_char, parse_digits, parse_entries, parse_entry,
    parse_host_list, scan_run, split_commas, string_from_chars, trim_bounds, CharClass, ViaSpec,
};
use bit_set::BitSet;
use vstd::prelude::*;

verus! {

/// How the connections to a host are made.
#[derive(Debug, Clone, PartialEq, Eq)]
pub enum ConnectionVia {
    /// From any local address.
    Any,
    /// Bound to this local source address (as written; an address that does not parse as an
    /// IP address means `Any` when connecting).
    ViaIP(String),
    /// Bound to this network device.
    ViaDevice(String),
}

/// One entry of a host list: a host, how many connections to make to it, and how.
#[derive(Debug, Clone, PartialEq, Eq)]
pub struct ConnectionTuple {
    pub host: String,
    pub multiplicity: usize,
    pub via: ConnectionVia,
}

impl View for ConnectionVia {
    type V = ViaSpec;

    open spec fn view(&self) -> ViaSpec {
        match self {
            ConnectionVia::Any => ViaSpec::Any,
            ConnectionVia::ViaIP(s) => ViaSpec::ViaIP(s@),
            ConnectionVia::ViaDevice(s) => ViaSpec::ViaDevice(s@),
        }
    }
}

impl View for ConnectionTuple {
    type V = (Seq<char>, nat, ViaSpec);

    open spec fn view(&self) -> (Seq<char>, nat, ViaSpec) {
        (self.host@, self.multiplicity as nat, self.via@)
    }
}

/// The characters `v[a..b]`.
fn sub_chars(v: &Vec<char>, a: usize, b: usize) -> (r: Vec<char>)
    requires
        a <= b <= v@.len(),
    ensures
        r@ == v@.subrange(a as int, b as int),
{
    let mut r: Vec<char> = Vec::new();
    let mut i = a;
    while i < b
        invariant
            a <= i <= b <= v@.len(),
            r@ == v@.subrange(a as int, i as int),
        decreases b - i,
    {
        r.push(v[i]);
        i = i + 1;
        assert(r@ =~= v@.subrange(a as int, i as int));
    }
    r
}

impl ConnectionTuple {
    /// Parses one trimmed entry of a host list (see `parse_entry`).
    fn parse_one(e: &Vec<char>) -> (r: Option<ConnectionTuple>)
        ensures
            r is None <==> parse_entry(e@) is None,
            r matches Some(t) ==> parse_entry(e@) == Some(t@),
    {
        let h0 = find_host_char(e);
        if h0 >= e.len() {
            return None;
        }
        let h1 = scan_run(e, h0, &CharClass::Host);
        let host = string_from_chars(vstd::slice::slice_subrange(e.as_slice(), h0, h1));
        let has_via = e.len() - h1 > 1 && char_in_class(&CharClass::Via, e[h1 + 1]);
        let via_ip = has_via && e[h1] == '@';
        let via_dev = has_via && e[h1] == '/';
        let v1 = if via_ip || via_dev {
            scan_run(e, h1 + 1, &CharClass::Via)
        } else {
            h1
        };
        let via = if via_ip {
            ConnectionVia::ViaIP(string_from_chars(vstd::slice::slice_subrange(e.as_slice(), h1 + 1, v1)))
        } else if via_dev {
            ConnectionVia::ViaDevice(
                string_from_chars(vstd::slice::slice_subrange(e.as_slice(), h1 + 1, v1)),
            )
        } else {
            ConnectionVia::Any
        };
        let multiplicity = if e.len() - v1 > 1 && e[v1] == '#' && char_in_class(
            &CharClass::Digit,
            e[v1 + 1],
        ) {
            let m1 = scan_run(e, v1 + 1, &CharClass::Digit);
            match parse_digits(e, v1 + 1, m1) {
                Some(m) => m,
                None => {
                    return None;
                },
            }
        } else {
            1
        };
        Some(ConnectionTuple { host, multiplicity, via })
    }

    /// Parses a comma-separated host list (see `parse_host_list`): each entry is
    /// `<host>(@<source address>|/<network device>)?(#<multiplicity>)?`.
    pub fn parse(s: &str) -> (r: Option<Vec<ConnectionTuple>>)
        ensures
            r is None <==> parse_host_list(s@) is None,
            r matches Some(v) ==> parse_host_list(s@) == Some(
                v@.map_values(|t: ConnectionTuple| t@),
            ),
    {
        if s.is_empty() {
            let r: Vec<ConnectionTuple> = Vec::new();
            assert(r@.map_values(|t: ConnectionTuple| t@) =~= Seq::empty());
            return Some(r);
        }
        let chars = chars_of(s);
        let (ts, te) = trim_bounds(&chars, 0, chars.len());
        assert(chars@.subrange(0, chars@.len() as int) =~= s@);
        if ts == te {
            return None;
        }
        let mut results: Vec<ConnectionTuple> = Vec::new();
        let ghost mut done: Seq<Seq<char>> = Seq::empty();
        let mut start: usize = 0;
        let mut i: usize = 0;
        assert(chars@.subrange(0, 0) =~= Seq::<char>::empty());
        assert(split_commas(Seq::<char>::empty()) =~= done.push(chars@.subrange(0, 0)));
        assert(results@.map_values(|t: ConnectionTuple| t@) =~= Seq::empty());
        while i < chars.len()
            invariant
                chars@ == s@,
                start <= i <= chars@.len(),
                split_commas(chars@.subrange(0, i as int)) == done.push(
                    chars@.subrange(start as int, i as int),
                ),
                parse_entries(done) == Some(results@.map_values(|t: ConnectionTuple| t@)),
            decreases chars@.len() - i,
        {
            let ghost prefix = chars@.subrange(0, i + 1);
            assert(prefix.subrange(0, prefix.len() - 1) =~= chars@.subrange(0, i as int));
            if chars[i] == ',' {
                let (a, b) = trim_bounds(&chars, start, i);
                let entry = sub_chars(&chars, a, b);
                match ConnectionTuple::parse_one(&entry) {
                    None => {
                        proof {
                            let d2 = done.push(chars@.subrange(start as int, i as int));
                            assert(d2.subrange(0, d2.len() - 1) =~= done);
                            lemma_split_prefix(s@, i + 1);
                            assert(s@.subrange(0, i + 1) =~= prefix);
                            assert(split_commas(s@).subrange(0, d2.len() as int) =~= d2);
                            lemma_parse_entries_prefix_none(split_commas(s@), d2);
                        }
                        return None;
                    },
                    Some(t) => {
                        let ghost old_results = results@.map_values(|t: ConnectionTuple| t@);
                        results.push(t);
                        proof {
                            let d2 = done.push(chars@.subrange(start as int, i as int));
                            assert(d2.subrange(0, d2.len() - 1) =~= done);
                            assert(results@.map_values(|t: ConnectionTuple| t@) =~= old_results.push(t@));
                            done = d2;
                        }
                    },
                }
                start = i + 1;
                assert(chars@.subrange(start as int, i + 1) =~= Seq::<char>::empty());
            } else {
                assert(chars@.subrange(start as int, i + 1) =~= chars@.subrange(
                    start as int,
                    i as int,
                ).push(chars@[i as int]));
            }
            i = i + 1;
        }
        assert(chars@.subrange(0, i as int) =~= s@);
        let (a, b) = trim_bounds(&chars, start, chars.len());
        let entry = sub_chars(&chars, a, b);
        let ghost d2 = done.push(chars@.subrange(start as int, i as int));
        assert(d2.subrange(0, d2.len() - 1) =~= done);
        match ConnectionTuple::parse_one(&entry) {
            None => {
                return None;
            },
            Some(t) => {
                let ghost old_results = results@.map_values(|t: ConnectionTuple| t@);
                results.push(t);
                assert(results@.map_values(|t: ConnectionTuple| t@) =~= old_results.push(t@));
            },
        }
        if results.is_empty() {
            None
        } else {
            Some(results)
        }
    }
}

/// The entries that a prefix of a string has completed (all but its last) are the first
/// entries of the whole string.
proof fn lemma_split_prefix(s: Seq<char>, j: int)
    requires
        0 <= j <= s.len(),
    ensures
        split_commas(s.subrange(0, j)).len() <= split_commas(s).len(),
        forall|k: int|
            0 <= k < split_commas(s.subrange(0, j)).len() - 1 ==> #[trigger] split_commas(s)[k]
                == split_commas(s.subrange(0, j))[k],
    decreases s.len() - j,
{
    if j < s.len() {
        lemma_split_prefix(s, j + 1);
        let t = s.subrange(0, j + 1);
        assert(t.subrange(0, t.len() - 1) =~= s.subrange(0, j));
        assert(split_commas(t) == {
            let prev = split_commas(s.subrange(0, j));
            if s[j] == ',' {
                prev.push(Seq::empty())
            } else {
                prev.update(prev.len() - 1, prev[prev.len() - 1].push(s[j]))
            }
        });
    } else {
        assert(s.subrange(0, j) =~= s);
    }
}

/// When a list of entries starts with entries that do not parse, it does not parse.
proof fn lemma_parse_entries_prefix_none(all: Seq<Seq<char>>, prefix: Seq<Seq<char>>)
    requires
        prefix.len() <= all.len(),
        all.subrange(0, prefix.len() as int) == prefix,
        parse_entries(prefix) is None,
    ensures
        parse_entries(all) is None,
    decreases all.len(),
{
    if all.len() > prefix.len() {
        let shorter = all.subrange(0, all.len() - 1);
        assert(shorter.subrange(0, prefix.len() as int) =~= prefix);
        lemma_parse_entries_prefix_none(shorter, prefix);
    } else {
        assert(all =~= prefix);
    }
}

/// The connections that Pixelflut data is sent over, used round-robin.
pub struct ConnectionPool<C> {
    all_connections: Vec<C>,
}

impl<C> ConnectionPool<C> {
    /// The connections, in the order in which they were made.
    pub closed spec fn connections(&self) -> Seq<C> {
        self.all_connections@
    }

    /// Replaces all connections by `connections`.
    pub fn set_connections(&mut self, connections: Vec<C>)
        ensures
            final(self).connections() == connections@,
    {
        self.all_connections.clear();
        let mut connections = connections;
        self.all_connections.append(&mut connections);
    }

    /// Replaces the connections by those of a successful connect, and keeps them all when
    /// the connect failed: a pool is never left half replaced.
    pub fn set_connections_from<E>(&mut self, result: Result<Vec<C>, E>) -> (r: Result<(), E>)
        ensures
            result matches Ok(v) ==> r is Ok && final(self).connections() == v@,
            result matches Err(e) ==> r == Err::<(), E>(e) && final(self).connections()
                == old(self).connections(),
    {
        match result {
            Ok(v) => {
                self.set_connections(v);
                Ok(())
            },
            Err(e) => Err(e),
        }
    }

    /// The connection that the data of round-robin slot `robin_idx` is sent over.
    pub fn send(&self, robin_idx: usize) -> (dest: &C)
        requires
            self.connections().len() > 0,
        ensures
            *dest == self.connections()[robin_idx as int % self.connections().len() as int],
    {
        &self.all_connections[robin_idx % self.all_connections.len()]
    }

    /// Whether there are no connections.
    pub fn is_empty(&self) -> (r: bool)
        ensures
            r == (self.connections().len() == 0),
    {
        self.all_connections.is_empty()
    }
}

/// Round robin: slot `robin_idx` and slot `robin_idx + n` (of `n` connections) go to the same
/// connection, and the slots `0..n` go to all of them, each once.
pub proof fn law_send_is_round_robin<C>(pool: ConnectionPool<C>, robin_idx: int)
    requires
        pool.connections().len() > 0,
        robin_idx >= 0,
    ensures
        ({
            let n = pool.connections().len() as int;
            &&& pool.connections()[(robin_idx + n) % n] == pool.connections()[robin_idx % n]
            &&& forall|k: int| 0 <= k < n ==> #[trigger] (k % n) == k
        }),
{
    let n = pool.connections().len();
    vstd::arithmetic::div_mod::lemma_mod_add_multiples_vanish(robin_idx, n as int);
    assert forall|k: int| 0 <= k < n implies #[trigger] (k % (n as int)) == k by {
        vstd::arithmetic::div_mod::lemma_small_mod(k as nat, n);
    }
}

impl<C> Default for ConnectionPool<C> {
    fn default() -> (r: Self)
        ensures
            r.connections() == Seq::<C>::empty(),
    {
        ConnectionPool { all_connections: Vec::new() }
    }
}

#[verifier::external_type_specification]
#[verifier::external_body]
#[verifier::reject_recursive_types(B)]
pub struct ExBitSet<B>(BitSet<B>);

/// The members of a `BitSet`.
pub uninterp spec fn bit_set_members(s: BitSet) -> Set<usize>;

/// `BitSet::with_capacity`: an empty set with room for `nbits` members.
#[verifier::external_body]
fn bit_set_with_capacity(nbits: usize) -> (r: BitSet)
    ensures
        bit_set_members(r) == Set::<usize>::empty(),
{
    BitSet::with_capacity(nbits)
}

/// `BitSet::contains`: whether `value` is a member.
#[verifier::external_body]
fn bit_set_contains(s: &BitSet, value: usize) -> (r: bool)
    ensures
        r == bit_set_members(*s).contains(value),
{
    s.contains(value)
}

/// What to do next while connecting the streams of one connection tuple.
pub enum ConnectStep {
    /// Try to connect to the address with this index.
    Connect(usize),
    /// All streams are connected.
    Done,
    /// No address is left to try for the current stream.
    Failed,
}

/// The decisions of connecting `multiplicity` streams to a host with `n_addrs` resolved
/// addresses: each stream tries the addresses in turn, starting one address further on than
/// the previous stream started, and skipping the addresses marked dead.
pub struct ConnectTuple<C> {
    n_addrs: usize,
    multiplicity: usize,
    addr_is_dead: BitSet,
    addr_next_base: usize,
    n_connected: usize,
    addr_i: usize,
    streams: Vec<C>,
}

/// The first offset `i` from `from` on (below `n`) whose address `(i + base) % n` is not
/// dead; `n` if there is none.
pub open spec fn first_alive(dead: Set<usize>, n: nat, base: nat, from: nat) -> nat
    decreases n - from,
{
    if from >= n {
        n
    } else if !dead.contains(((from + base) % n) as usize) {
        from
    } else {
        first_alive(dead, n, base, from + 1)
    }
}

proof fn lemma_first_alive(dead: Set<usize>, n: nat, base: nat, from: nat)
    requires
        from <= n,
    ensures
        from <= first_alive(dead, n, base, from) <= n,
        first_alive(dead, n, base, from) < n ==> !dead.contains(
            ((first_alive(dead, n, base, from) + base) % n) as usize,
        ),
    decreases n - from,
{
    if from < n && dead.contains(((from + base) % n) as usize) {
        lemma_first_alive(dead, n, base, from + 1);
    }
}

/// The next address tried is the first live one of the rotation: every offset from `from` up
/// to the chosen one (exclusive) names a dead address, and the chosen offset, when below `n`,
/// names a live one.
pub proof fn law_first_alive_skips_only_dead(dead: Set<usize>, n: nat, base: nat, from: nat, k: nat)
    requires
        from <= n,
        n > 0,
    ensures
        from <= first_alive(dead, n, base, from) <= n,
        first_alive(dead, n, base, from) < n ==> !dead.contains(
            ((first_alive(dead, n, base, from) + base) % n) as usize,
        ),
        from <= k < first_alive(dead, n, base, from) ==> dead.contains(((k + base) % n) as usize),
    decreases n - from,
{
    lemma_first_alive(dead, n, base, from);
    if from < n && dead.contains(((from + base) % n) as usize) {
        law_first_alive_skips_only_dead(dead, n, base, from + 1, k);
    }
}

/// Without dead addresses, every stream tries the addresses in rotation, one after the other
/// from its offset on: the next attempt is address `(offset + base) % n` while the offset is
/// below `n`, and the stream fails only once all `n` addresses have been tried.
pub proof fn law_no_address_is_skipped(n: nat, base: nat, offset: nat)
    requires
        offset <= n,
    ensures
        first_alive(Set::<usize>::empty(), n, base, offset) == offset,
{
}

impl<C> ConnectTuple<C> {
    pub closed spec fn n_addrs(&self) -> nat {
        self.n_addrs as nat
    }

    pub closed spec fn multiplicity(&self) -> nat {
        self.multiplicity as nat
    }

    /// The addresses that are not tried.
    pub closed spec fn dead(&self) -> Set<usize> {
        bit_set_members(self.addr_is_dead)
    }

    /// The address offset that the next stream starts from.
    pub closed spec fn base(&self) -> nat {
        self.addr_next_base as nat
    }

    /// Streams connected so far.
    pub closed spec fn connected(&self) -> nat {
        self.n_connected as nat
    }

    /// The offset (from `base`) of the address tried last, or to be tried next, for the current
    /// stream.
    pub closed spec fn offset(&self) -> nat {
        self.addr_i as nat
    }

    /// The streams connected so far, in the order they were made.
    pub closed spec fn streams(&self) -> Seq<C> {
        self.streams@
    }

    pub open spec fn wf(&self) -> bool {
        &&& self.streams().len() == self.connected()
        &&& self.base() == self.connected()
        &&& self.connected() <= self.multiplicity()
        &&& self.offset() <= self.n_addrs()
        &&& self.n_addrs() + self.multiplicity() <= usize::MAX
    }

    /// Starts connecting `multiplicity` streams over `n_addrs` addresses, none of them dead.
    pub fn new(n_addrs: usize, multiplicity: usize) -> (r: Self)
        requires
            n_addrs + multiplicity <= usize::MAX,
        ensures
            r.wf(),
            r.n_addrs() == n_addrs,
            r.multiplicity() == multiplicity,
            r.dead() == Set::<usize>::empty(),
            r.connected() == 0,
            r.streams() == Seq::<C>::empty(),
            r.offset() == 0,
    {
        ConnectTuple {
            n_addrs,
            multiplicity,
            addr_is_dead: bit_set_with_capacity(n_addrs),
            addr_next_base: 0,
            n_connected: 0,
            addr_i: 0,
            streams: Vec::new(),
        }
    }

    /// Decides what to do next: `Done` once all streams are connected; otherwise the next
    /// address that is not dead, from the current offset on, in the rotation that starts at
    /// `base`; `Failed` when there is none.
    pub fn step(&mut self) -> (r: ConnectStep)
        requires
            old(self).wf(),
        ensures
            final(self).wf(),
            final(self).n_addrs() == old(self).n_addrs(),
            final(self).multiplicity() == old(self).multiplicity(),
            final(self).dead() == old(self).dead(),
            final(self).base() == old(self).base(),
            final(self).connected() == old(self).connected(),
            final(self).streams() == old(self).streams(),
            old(self).connected() == old(self).multiplicity() ==> r is Done && final(self).offset()
                == old(self).offset(),
            old(self).connected() < old(self).multiplicity() ==> {
                let i = first_alive(
                    old(self).dead(),
                    old(self).n_addrs(),
                    old(self).base(),
                    old(self).offset(),
                );
                &&& final(self).offset() == i
                &&& i < old(self).n_addrs() ==> r == ConnectStep::Connect(
                    ((i + old(self).base()) % old(self).n_addrs()) as usize,
                )
                &&& i == old(self).n_addrs() ==> r is Failed
            },
    {
        if self.n_connected == self.multiplicity {
            return ConnectStep::Done;
        }
        let n = self.n_addrs;
        proof {
            lemma_first_alive(self.dead(), n as nat, self.base(), self.offset());
        }
        while self.addr_i < n
            invariant
                self.wf(),
                n == self.n_addrs(),
                self.connected() < self.multiplicity(),
                first_alive(self.dead(), n as nat, self.base(), self.offset()) == first_alive(
                    old(self).dead(),
                    old(self).n_addrs(),
                    old(self).base(),
                    old(self).offset(),
                ),
                self.dead() == old(self).dead(),
                self.base() == old(self).base(),
                self.connected() == old(self).connected(),
                self.streams() == old(self).streams(),
                self.n_addrs() == old(self).n_addrs(),
                self.multiplicity() == old(self).multiplicity(),
            decreases n - self.addr_i,
        {
            let addr_i2 = (self.addr_i + self.addr_next_base) % n;
            if !bit_set_contains(&self.addr_is_dead, addr_i2) {
                return ConnectStep::Connect(addr_i2);
            }
            self.addr_i = self.addr_i + 1;
        }
        ConnectStep::Failed
    }

    /// Records the outcome of the connection attempt that `step` asked for: a new stream is
    /// kept, and the next stream starts one address further on, from offset 0; on failure the
    /// next address of the rotation is tried.
    pub fn on_connect_result(&mut self, result: Option<C>)
        requires
            old(self).wf(),
            old(self).connected() < old(self).multiplicity(),
            old(self).offset() < old(self).n_addrs(),
        ensures
            final(self).wf(),
            final(self).n_addrs() == old(self).n_addrs(),
            final(self).multiplicity() == old(self).multiplicity(),
            final(self).dead() == old(self).dead(),
            result matches Some(c) ==> final(self).connected() == old(self).connected() + 1
                && final(self).offset() == 0 && final(self).streams() == old(self).streams().push(
                c,
            ),
            result is None ==> final(self).connected() == old(self).connected()
                && final(self).offset() == old(self).offset() + 1 && final(self).streams()
                == old(self).streams(),
    {
        match result {
            Some(c) => {
                self.streams.push(c);
                self.addr_next_base = self.addr_next_base + 1;
                self.n_connected = self.n_connected + 1;
                self.addr_i = 0;
            },
            None => {
                self.addr_i = self.addr_i + 1;
            },
        }
    }

    /// The streams of the tuple, once all of them are connected: `multiplicity` of them, in
    /// the order they were made.
    pub fn into_streams(self) -> (r: Vec<C>)
        requires
            self.wf(),
            self.connected() == self.multiplicity(),
        ensures
            r@ == self.streams(),
            r@.len() == self.multiplicity(),
    {
        self.streams
    }
}

/// The indices of the addresses of the wanted family, in order: `is_v4[i]` says whether
/// address `i` is an IPv4 address.
pub open spec fn family_indices(is_v4: Seq<bool>, want_v4: bool) -> Seq<usize>
    decreases is_v4.len(),
{
    if is_v4.len() == 0 {
        Seq::empty()
    } else {
        let prev = family_indices(is_v4.drop_last(), want_v4);
        if is_v4.last() == want_v4 {
            prev.push((is_v4.len() - 1) as usize)
        } else {
            prev
        }
    }
}

/// The addresses to connect to for a source address of the family `via_v4` (`true` for
/// IPv4): only those of that family, in order; all of them when no source address is given.
pub fn addresses_to_try(is_v4: &Vec<bool>, via_v4: Option<bool>) -> (r: Vec<usize>)
    ensures
        via_v4 is None ==> r@ == Seq::new(is_v4@.len(), |i: int| i as usize),
        via_v4 matches Some(f) ==> r@ == family_indices(is_v4@, f),
{
    let mut r: Vec<usize> = Vec::new();
    let mut i: usize = 0;
    while i < is_v4.len()
        invariant
            i <= is_v4@.len(),
            via_v4 is None ==> r@ == Seq::new(i as nat, |k: int| k as usize),
            via_v4 matches Some(f) ==> r@ == family_indices(is_v4@.take(i as int), f),
        decreases is_v4@.len() - i,
    {
        assert(is_v4@.take(i + 1).drop_last() =~= is_v4@.take(i as int));
        let keep = match via_v4 {
            None => true,
            Some(f) => is_v4[i] == f,
        };
        if keep {
            r.push(i);
        }
        i = i + 1;
        proof {
            if via_v4 is None {
                assert(r@ =~= Seq::new(i as nat, |k: int| k as usize));
            }
        }
    }
    assert(is_v4@.take(i as int) =~= is_v4@);
    r
}

/// The total number of streams of tuples with these multiplicities.
pub open spec fn total_streams(multiplicities: Seq<usize>) -> nat
    decreases multiplicities.len(),
{
    if multiplicities.len() == 0 {
        0
    } else {
        total_streams(multiplicities.drop_last()) + multiplicities.last() as nat
    }
}

/// Gathers the streams of all connection tuples, tuple after tuple.
pub struct PoolBuilder<C> {
    multiplicities: Vec<usize>,
    streams: Vec<C>,
    next: usize,
    groups: Ghost<Seq<Seq<C>>>,
}

impl<C> PoolBuilder<C> {
    /// The multiplicity of each tuple.
    pub closed spec fn multiplicities(&self) -> Seq<usize> {
        self.multiplicities@
    }

    /// The streams of each tuple gathered so far.
    pub closed spec fn groups(&self) -> Seq<Seq<C>> {
        self.groups@
    }

    /// All streams gathered so far, in order.
    pub closed spec fn streams(&self) -> Seq<C> {
        self.streams@
    }

    /// The index of the next tuple.
    pub closed spec fn next_index(&self) -> nat {
        self.next as nat
    }

    pub open spec fn wf(&self) -> bool {
        &&& self.next_index() == self.groups().len()
        &&& self.groups().len() <= self.multiplicities().len()
        &&& forall|i: int|
            0 <= i < self.groups().len() ==> (#[trigger] self.groups()[i]).len()
                == self.multiplicities()[i]
        &&& self.streams() == self.groups().flatten()
    }

    /// Starts gathering the streams of tuples with these multiplicities.
    pub fn new(multiplicities: Vec<usize>) -> (r: Self)
        ensures
            r.wf(),
            r.multiplicities() == multiplicities@,
            r.groups() == Seq::<Seq<C>>::empty(),
    {
        PoolBuilder { multiplicities, streams: Vec::new(), next: 0, groups: Ghost(Seq::empty()) }
    }

    /// The index of the tuple to connect next, `None` once all are done.
    pub fn next_tuple(&self) -> (r: Option<usize>)
        requires
            self.wf(),
        ensures
            self.groups().len() < self.multiplicities().len() ==> r == Some(
                self.groups().len() as usize,
            ),
            self.groups().len() == self.multiplicities().len() ==> r is None,
    {
        if self.next < self.multiplicities.len() {
            Some(self.next)
        } else {
            None
        }
    }

    /// The multiplicity of tuple `i`.
    pub fn multiplicity(&self, i: usize) -> (r: usize)
        requires
            i < self.multiplicities().len(),
        ensures
            r == self.multiplicities()[i as int],
    {
        self.multiplicities[i]
    }

    /// Adds the streams of the next tuple, after those gathered so far.
    pub fn add_tuple_streams(&mut self, tuple_streams: Vec<C>)
        requires
            old(self).wf(),
            old(self).groups().len() < old(self).multiplicities().len(),
            tuple_streams@.len() == old(self).multiplicities()[old(self).groups().len() as int],
        ensures
            final(self).wf(),
            final(self).multiplicities() == old(self).multiplicities(),
            final(self).groups() == old(self).groups().push(tuple_streams@),
            final(self).streams() == old(self).streams() + tuple_streams@,
    {
        proof {
            old(self).groups().lemma_flatten_push(tuple_streams@);
        }
        let ghost ts = tuple_streams@;
        let n_tuples = self.multiplicities.len();
        assert(self.next < n_tuples);
        let mut tuple_streams = tuple_streams;
        self.streams.append(&mut tuple_streams);
        self.next = self.next + 1;
        self.groups = Ghost(self.groups@.push(ts));
        assert(self.streams@ =~= self.groups@.flatten());
    }

    /// All streams, once every tuple is done: the streams of tuple 0 first, then those of
    /// tuple 1, and so on; as many as the multiplicities add up to.
    pub fn finish(self) -> (r: Vec<C>)
        requires
            self.wf(),
            self.groups().len() == self.multiplicities().len(),
        ensures
            r@ == self.groups().flatten(),
            r@.len() == total_streams(self.multiplicities()),
    {
        proof {
            lemma_flatten_len(self.groups(), self.multiplicities());
        }
        self.streams
    }
}

/// Groups of the given sizes flatten to as many elements as the sizes add up to.
proof fn lemma_flatten_len<C>(groups: Seq<Seq<C>>, sizes: Seq<usize>)
    requires
        groups.len() == sizes.len(),
        forall|i: int| 0 <= i < groups.len() ==> (#[trigger] groups[i]).len() == sizes[i],
    ensures
        groups.flatten().len() == total_streams(sizes),
    decreases groups.len(),
{
    if groups.len() > 0 {
        let g = groups.drop_last();
        let z = sizes.drop_last();
        assert forall|i: int| 0 <= i < g.len() implies (#[trigger] g[i]).len() == z[i] by {
            assert(g[i] == groups[i]);
        }
        lemma_flatten_len(g, z);
        g.lemma_flatten_push(groups.last());
        assert(g.push(groups.last()) =~= groups);
    }
}

} // verus!
