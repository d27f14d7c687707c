//! The hub's registry of live agents, and agent selection from the SOCKS5
//! username field: `agent_...` names one agent, `all` or an empty selector
//! draws uniformly from every agent, and `country_XXYY` draws uniformly from
//! the agents whose country code is one of the listed two-letter codes.
use vstd::prelude::*;
use rand::Rng;
use crate::codec::scan_lit;
use vstd::utf8::encode_utf8;
use vstd::string::StringSliceAdditionalSpecFns;

verus! {

/// `agent_`
pub const AGENT_PREFIX: [u8; 6] = [0x61, 0x67, 0x65, 0x6e, 0x74, 0x5f];

/// `country_`
pub const COUNTRY_PREFIX: [u8; 8] = [0x63, 0x6f, 0x75, 0x6e, 0x74, 0x72, 0x79, 0x5f];

/// `all`
pub const SEL_ALL: [u8; 3] = [0x61, 0x6c, 0x6c];

/// Relies on rand's `random_range` over a thread-local generator: the result
/// lies below the bound; nothing else is promised of it.
#[verifier::external_body]
fn random_below(n: usize) -> (r: usize)
    requires
        n > 0,
    ensures
        r < n,
{
    rand::rng().random_range(0..n)
}

/// Whether an agent identifier is acceptable at registration: it must begin
/// with the `agent_` prefix.
pub fn agent_id_acceptable(id: &str) -> (r: bool)
    ensures
        r == (scan_lit(id.spec_bytes(), 0, AGENT_PREFIX@) is Some),
{
    crate::codec::expect_lit(id.as_bytes(), 0, AGENT_PREFIX.as_slice()).is_some()
}

/// What an agent reported about itself at registration; immutable for the
/// connection's lifetime.
pub struct AgentMeta {
    pub ip: String,
    pub remote_host: String,
    pub country_code: String,
    pub city: String,
    pub region: String,
    pub asn: String,
    pub asn_org: String,
    pub os_type: String,
    pub os_version: String,
    pub hostname: String,
    pub kernel_version: String,
    pub username: String,
}

/// One live agent: its identifier, a handle to its write sink, and its
/// metadata.
pub struct AgentEntry {
    pub agent_id: String,
    pub conn: u64,
    pub meta: AgentMeta,
}

/// Splits a selector's country part into two-byte codes; a trailing odd byte
/// forms a one-byte code.
pub open spec fn code_chunks(bs: Seq<u8>) -> Seq<Seq<u8>>
    decreases bs.len(),
{
    if bs.len() == 0 {
        Seq::empty()
    } else if bs.len() == 1 {
        seq![bs]
    } else {
        seq![bs.subrange(0, 2)] + code_chunks(bs.skip(2))
    }
}

/// Whether the selector bytes admit this agent. No selector, `all` and the
/// empty selector admit every agent; `agent_...` admits exactly the agent of
/// that name; `country_...` admits the agents whose country code appears
/// among the selector's codes; anything else admits none.
pub open spec fn eligible_spec(sel: Option<Seq<u8>>, e: AgentEntry) -> bool {
    match sel {
        Option::None => true,
        Option::Some(bs) => if scan_lit(bs, 0, AGENT_PREFIX@) is Some {
            encode_utf8(e.agent_id@) == bs
        } else if bs == SEL_ALL@ || bs.len() == 0 {
            true
        } else if scan_lit(bs, 0, COUNTRY_PREFIX@) is Some {
            code_chunks(bs.skip(8)).contains(encode_utf8(e.meta.country_code@))
        } else {
            false
        },
    }
}

/// The selector text as bytes, if one was given.
pub open spec fn sel_view(sel: Option<&str>) -> Option<Seq<u8>> {
    match sel {
        Option::Some(s) => Option::Some(s.spec_bytes()),
        Option::None => Option::None,
    }
}

/// A `country_XXYY...` selector admits only agents whose country code is one
/// of the selector's two-letter codes.
pub proof fn lemma_country_selector_only_matching(sel: Seq<u8>, e: AgentEntry)
    requires
        scan_lit(sel, 0, COUNTRY_PREFIX@) is Some,
        eligible_spec(Some(sel), e),
    ensures
        code_chunks(sel.skip(8)).contains(encode_utf8(e.meta.country_code@)),
{
    let p = AGENT_PREFIX@;
    assert(sel[0] == COUNTRY_PREFIX@[0]) by {
        assert(sel.subrange(0, 8)[0] == sel[0]);
    }
    assert(scan_lit(sel, 0, p) is None) by {
        if p.len() <= sel.len() && sel.subrange(0, p.len() as int) == p {
            assert(sel.subrange(0, p.len() as int)[0] == sel[0]);
            assert(p[0] != COUNTRY_PREFIX@[0]);
        }
    }
    assert(sel != SEL_ALL@ && sel.len() != 0) by {
        assert(sel.len() >= 8);
    }
}

fn eligible_exec(sel: Option<&str>, id: &String, country_code: &String) -> (r: bool)
    ensures
        r == (match sel_view(sel) {
            Option::None => true,
            Option::Some(bs) => if scan_lit(bs, 0, AGENT_PREFIX@) is Some {
                encode_utf8(id@) == bs
            } else if bs == SEL_ALL@ || bs.len() == 0 {
                true
            } else if scan_lit(bs, 0, COUNTRY_PREFIX@) is Some {
                code_chunks(bs.skip(8)).contains(encode_utf8(country_code@))
            } else {
                false
            },
        }),
{
    let s = match sel {
        Some(s) => s,
        None => {
            return true;
        },
    };
    let bs = s.as_bytes();
    if crate::codec::expect_lit(bs, 0, AGENT_PREFIX.as_slice()).is_some() {
        return crate::codec::slice_eq(id.as_str().as_bytes(), bs);
    }
    if crate::codec::slice_eq(bs, SEL_ALL.as_slice()) || bs.len() == 0 {
        return true;
    }
    match crate::codec::expect_lit(bs, 0, COUNTRY_PREFIX.as_slice()) {
        Some(_) => country_listed(bs, country_code),
        None => false,
    }
}

fn country_listed(bs: &[u8], country_code: &String) -> (r: bool)
    requires
        bs@.len() >= 8,
    ensures
        r == code_chunks(bs@.skip(8)).contains(encode_utf8(country_code@)),
{
    let cc = country_code.as_str().as_bytes();
    let n = bs.len();
    let mut i: usize = 8;
    while i < n
        invariant
            8 <= i <= n,
            n == bs@.len(),
            cc@ == encode_utf8(country_code@),
            code_chunks(bs@.skip(8)).contains(encode_utf8(country_code@)) == code_chunks(
                bs@.skip(i as int),
            ).contains(encode_utf8(country_code@)),
        decreases n - i,
    {
        let upper = if n - i >= 2 {
            i + 2
        } else {
            n
        };
        let ghost rest = bs@.skip(i as int);
        let ghost chunk = bs@.subrange(i as int, upper as int);
        let mut piece: Vec<u8> = Vec::new();
        let mut k: usize = i;
        while k < upper
            invariant
                i <= k <= upper <= n,
                n == bs@.len(),
                piece@ =~= bs@.subrange(i as int, k as int),
            decreases upper - k,
        {
            piece.push(bs[k]);
            proof {
                assert(piece@ =~= bs@.subrange(i as int, k as int + 1));
            }
            k += 1;
        }
        proof {
            if rest.len() == 1 {
                assert(chunk =~= rest);
                assert(code_chunks(rest) == seq![rest]);
            } else {
                assert(rest.subrange(0, 2) =~= chunk);
                assert(rest.skip(2) =~= bs@.skip(i as int + 2));
            }
        }
        if crate::codec::slice_eq(piece.as_slice(), cc) {
            proof {
                assert(piece@ =~= chunk);
                if rest.len() >= 2 {
                    assert(code_chunks(rest)[0] == rest.subrange(0, 2));
                } else {
                    assert(code_chunks(rest)[0] == rest);
                }
                assert(code_chunks(rest)[0] == encode_utf8(country_code@));
                assert(code_chunks(rest).contains(encode_utf8(country_code@)));
            }
            return true;
        }
        proof {
            let target = encode_utf8(country_code@);
            assert(piece@ =~= chunk);
            assert(chunk != target);
            if rest.len() >= 2 {
                let tail = code_chunks(bs@.skip(i as int + 2));
                assert(code_chunks(rest) == seq![chunk] + code_chunks(bs@.skip(i as int + 2)));
                assert(code_chunks(rest).contains(target) == tail.contains(target)) by {
                    if tail.contains(target) {
                        let j = choose|j: int| 0 <= j < tail.len() && tail[j] == target;
                        assert(code_chunks(rest)[j + 1] == target);
                        assert(code_chunks(rest).contains(target));
                    } else if code_chunks(rest).contains(target) {
                        let j = choose|j: int| 0 <= j < code_chunks(rest).len() && code_chunks(
                            rest,
                        )[j] == target;
                        assert(code_chunks(rest)[0] == rest.subrange(0, 2));
                        assert(j != 0);
                        assert(tail[j - 1] == target);
                        assert(tail.contains(target));
                    }
                }
            } else {
                assert(upper == n);
                assert(bs@.skip(n as int) =~= Seq::<u8>::empty());
                assert(code_chunks(bs@.skip(n as int)) == Seq::<Seq<u8>>::empty());
                assert(chunk =~= rest);
                assert(!code_chunks(rest).contains(target)) by {
                    if code_chunks(rest).contains(target) {
                        let j = choose|j: int| 0 <= j < code_chunks(rest).len() && code_chunks(
                            rest,
                        )[j] == target;
                        assert(code_chunks(rest) == seq![rest]);
                        assert(j == 0);
                    }
                }
            }
        }
        i = upper;
    }
    proof {
        assert(bs@.skip(n as int) =~= Seq::<u8>::empty());
        assert(code_chunks(bs@.skip(n as int)) == Seq::<Seq<u8>>::empty());
    }
    false
}

/// The hub's live agents, keyed by their identifiers.
pub struct AgentRegistry {
    entries: Vec<AgentEntry>,
}

impl View for AgentRegistry {
    type V = Seq<AgentEntry>;

    closed spec fn view(&self) -> Seq<AgentEntry> {
        self.entries@
    }
}

impl AgentRegistry {
    /// Agent identifiers are pairwise distinct.
    pub open spec fn wf(&self) -> bool {
        forall|i: int, j: int| 0 <= i < j < self@.len() ==> self@[i].agent_id@ != self@[j].agent_id@
    }

    pub fn new() -> (r: AgentRegistry)
        ensures
            r.wf(),
            r@ == Seq::<AgentEntry>::empty(),
    {
        AgentRegistry { entries: Vec::new() }
    }

    pub fn len(&self) -> (r: usize)
        ensures
            r == self@.len(),
    {
        self.entries.len()
    }

    fn find_idx(&self, id: &String) -> (r: Option<usize>)
        ensures
            r matches Some(i) ==> i < self@.len() && self@[i as int].agent_id@ == id@,
            r is None ==> forall|i: int| 0 <= i < self@.len() ==> self@[i].agent_id@ != id@,
    {
        let n = self.entries.len();
        let mut i: usize = 0;
        while i < n
            invariant
                n == self@.len(),
                0 <= i <= n,
                forall|m: int| 0 <= m < i ==> self@[m].agent_id@ != id@,
            decreases n - i,
        {
            if self.entries[i].agent_id == *id {
                return Some(i);
            }
            i += 1;
        }
        None
    }

    /// Whether an agent of this identifier is registered.
    pub fn contains_id(&self, id: &String) -> (r: bool)
        ensures
            r == exists|i: int| 0 <= i < self@.len() && #[trigger] self@[i].agent_id@ == id@,
    {
        self.find_idx(id).is_some()
    }

    /// The connection handle of the agent registered under `id`.
    pub fn conn_of(&self, id: &String) -> (r: Option<u64>)
        ensures
            r matches Some(c) ==> exists|i: int|
                0 <= i < self@.len() && #[trigger] self@[i].agent_id@ == id@ && self@[i].conn == c,
            r is None ==> forall|i: int| 0 <= i < self@.len() ==> self@[i].agent_id@ != id@,
    {
        match self.find_idx(id) {
            Some(i) => Some(self.entries[i].conn),
            None => None,
        }
    }

    /// Registers an agent, replacing any earlier entry of the same
    /// identifier.
    pub fn register(&mut self, e: AgentEntry)
        requires
            old(self).wf(),
        ensures
            final(self).wf(),
            final(self)@.len() >= 1,
            final(self)@.last() == e,
            forall|i: int| 0 <= i < final(self)@.len() - 1 ==> final(self)@[i].agent_id@
                != e.agent_id@,
            forall|k: int| 0 <= k < old(self)@.len() && old(self)@[k].agent_id@ != e.agent_id@
                ==> final(self)@.contains(#[trigger] old(self)@[k]),
            forall|k: int| 0 <= k < final(self)@.len() - 1 ==> old(self)@.contains(
                #[trigger] final(self)@[k],
            ),
    {
        let ghost s0 = self@;
        match self.find_idx(&e.agent_id) {
            Some(i) => {
                self.entries.remove(i);
                proof {
                    assert forall|k: int| 0 <= k < self@.len() implies s0.contains(
                        #[trigger] self@[k],
                    ) && self@[k].agent_id@ != e.agent_id@ by {
                        if k < i {
                            assert(self@[k] == s0[k]);
                        } else {
                            assert(self@[k] == s0[k + 1]);
                        }
                    }
                    assert forall|k: int|
                        0 <= k < s0.len() && s0[k].agent_id@ != e.agent_id@ implies self@.contains(
                        #[trigger] s0[k],
                    ) by {
                        if k < i {
                            assert(self@[k] == s0[k]);
                        } else {
                            assert(k != i);
                            assert(self@[k - 1] == s0[k]);
                        }
                    }
                }
            },
            None => {
                proof {
                    assert forall|k: int| 0 <= k < self@.len() implies s0.contains(
                        #[trigger] self@[k],
                    ) && self@[k].agent_id@ != e.agent_id@ by {
                        assert(self@[k] == s0[k]);
                    }
                }
            },
        }
        let ghost s1 = self@;
        self.entries.push(e);
        proof {
            assert(forall|k: int| 0 <= k < s1.len() ==> self@[k] == s1[k]);
            assert forall|k: int|
                0 <= k < s0.len() && s0[k].agent_id@ != e.agent_id@ implies self@.contains(
                #[trigger] s0[k],
            ) by {
                assert(s1.contains(s0[k]));
                let m = choose|m: int| 0 <= m < s1.len() && s1[m] == s0[k];
                assert(self@[m] == s0[k]);
            }
            assert forall|k: int| 0 <= k < self@.len() - 1 implies s0.contains(
                #[trigger] self@[k],
            ) by {
                assert(s1.contains(self@[k]));
            }
        }
    }

    /// Removes the agent registered under `id`; afterwards no entry carries
    /// that identifier.
    pub fn remove(&mut self, id: &String)
        requires
            old(self).wf(),
        ensures
            final(self).wf(),
            forall|i: int| 0 <= i < final(self)@.len() ==> final(self)@[i].agent_id@ != id@,
            forall|k: int| 0 <= k < old(self)@.len() && old(self)@[k].agent_id@ != id@
                ==> final(self)@.contains(#[trigger] old(self)@[k]),
            forall|k: int| 0 <= k < final(self)@.len() ==> old(self)@.contains(
                #[trigger] final(self)@[k],
            ),
    {
        let ghost s0 = self@;
        match self.find_idx(id) {
            Some(i) => {
                self.entries.remove(i);
                proof {
                    assert forall|k: int|
                        0 <= k < s0.len() && s0[k].agent_id@ != id@ implies self@.contains(
                        #[trigger] s0[k],
                    ) by {
                        if k < i {
                            assert(self@[k] == s0[k]);
                        } else {
                            assert(k != i);
                            assert(self@[k - 1] == s0[k]);
                        }
                    }
                    assert forall|k: int| 0 <= k < self@.len() implies s0.contains(
                        #[trigger] self@[k],
                    ) && self@[k].agent_id@ != id@ by {
                        if k < i {
                            assert(s0[k] == self@[k]);
                        } else {
                            assert(s0[k + 1] == self@[k]);
                        }
                    }
                }
            },
            None => {},
        }
    }

    /// Chooses an agent for the selector: uniformly at random among the
    /// eligible ones, none when no agent is eligible.
    pub fn choose_agent(&self, sel: Option<&str>) -> (r: Option<(String, u64)>)
        requires
            self.wf(),
        ensures
            r is Some <==> exists|i: int| 0 <= i < self@.len() && eligible_spec(
                sel_view(sel),
                #[trigger] self@[i],
            ),
            r matches Some((id, conn)) ==> exists|i: int| 0 <= i < self@.len()
                && #[trigger] self@[i].agent_id@ == id@ && self@[i].conn == conn && eligible_spec(
                sel_view(sel),
                self@[i],
            ),
    {
        let n = self.entries.len();
        let mut chosen: Vec<usize> = Vec::new();
        let mut i: usize = 0;
        while i < n
            invariant
                n == self@.len(),
                0 <= i <= n,
                forall|m: int| 0 <= m < chosen@.len() ==> #[trigger] chosen@[m] < i
                    && eligible_spec(sel_view(sel), self@[chosen@[m] as int]),
                forall|m: int| 0 <= m < i && eligible_spec(sel_view(sel), #[trigger] self@[m])
                    ==> chosen@.contains(m as usize),
            decreases n - i,
        {
            let e = &self.entries[i];
            let ghost pre = chosen@;
            if eligible_exec(sel, &e.agent_id, &e.meta.country_code) {
                chosen.push(i);
            }
            proof {
                assert forall|m: int|
                    0 <= m < i + 1 && eligible_spec(sel_view(sel), #[trigger] self@[m]) implies
                    chosen@.contains(m as usize) by {
                    if m == i {
                        assert(chosen@.last() == i as usize);
                        assert(chosen@.contains(i as usize));
                    } else {
                        assert(pre.contains(m as usize));
                        let w = choose|w: int| 0 <= w < pre.len() && pre[w] == m as usize;
                        assert(chosen@[w] == m as usize);
                        assert(chosen@.contains(m as usize));
                    }
                }
            }
            i += 1;
        }
        if chosen.len() == 0 {
            proof {
                assert forall|m: int| 0 <= m < self@.len() implies !eligible_spec(
                    sel_view(sel),
                    #[trigger] self@[m],
                ) by {
                    if eligible_spec(sel_view(sel), self@[m]) {
                        assert(chosen@.contains(m as usize));
                    }
                }
            }
            return None;
        }
        let pick = random_below(chosen.len());
        let idx = chosen[pick];
        let e = &self.entries[idx];
        let picked_id = e.agent_id.clone();
        let picked_conn = e.conn;
        proof {
            assert(eligible_spec(sel_view(sel), self@[idx as int]));
            assert(self@[idx as int].agent_id@ == picked_id@);
            assert(self@[idx as int].conn == picked_conn);
        }
        Some((picked_id, picked_conn))
    }
}

} // verus!
