//! Public address / NAT type discovery using STUN
use crate::announce_address::PeerConnectionDetails;
use crate::net::SocketAddr;
use rand::seq::SliceRandom;
use vstd::prelude::*;

verus! {

/// How many servers to try before giving up
pub const MAX_STUN_SERVER_ATTEMPTS: usize = 10;

/// The kind of NAT that follows from our local address and what two servers see as our address.
pub open spec fn nat_kind(
    local: SocketAddr,
    public_addr1: SocketAddr,
    public_addr2: SocketAddr,
) -> PeerConnectionDetails {
    if local.spec_ip() == public_addr1.spec_ip() {
        PeerConnectionDetails::NoNat(public_addr2)
    } else if public_addr1 != public_addr2 {
        PeerConnectionDetails::Symmetric(public_addr2.spec_ip())
    } else {
        PeerConnectionDetails::Asymmetric(public_addr2)
    }
}

/// Get our public address and NAT type from what two servers see
pub fn stun_test(
    local: SocketAddr,
    public_addr1: SocketAddr,
    public_addr2: SocketAddr,
) -> (r: PeerConnectionDetails)
    ensures
        r == nat_kind(local, public_addr1, public_addr2),
{
    let has_nat = local.ip() != public_addr1.ip();
    let is_symmetric = public_addr1 != public_addr2;
    if !has_nat {
        PeerConnectionDetails::NoNat(public_addr2)
    } else if is_symmetric {
        PeerConnectionDetails::Symmetric(public_addr2.ip())
    } else {
        PeerConnectionDetails::Asymmetric(public_addr2)
    }
}

/// What is announced is what others can use. Without NAT, which is where a server sees us at our own
/// address, that is the address that was seen. Behind a NAT it has a port exactly where two servers
/// see the same address and the same port: a port that is not the same for both is not announced.
pub proof fn law_announced_address_is_usable(
    local: SocketAddr,
    public_addr1: SocketAddr,
    public_addr2: SocketAddr,
)
    ensures
        ({
            let has_nat = local.spec_ip() != public_addr1.spec_ip();
            let details = nat_kind(local, public_addr1, public_addr2);
            &&& details is NoNat == !has_nat
            &&& !has_nat ==> details == PeerConnectionDetails::NoNat(public_addr2)
            &&& details is Asymmetric == (has_nat && public_addr1 == public_addr2)
            &&& details is Asymmetric ==> details == PeerConnectionDetails::Asymmetric(public_addr1)
            &&& has_nat && (public_addr1.spec_port() != public_addr2.spec_port()
                || public_addr1.spec_ip() != public_addr2.spec_ip()) ==> details
                == PeerConnectionDetails::Symmetric(public_addr2.spec_ip())
        }),
{
}

/// What a server answered: our address as the server sees it, and the server's own address.
#[derive(Clone, Copy, Debug, PartialEq, Eq, Structural)]
pub struct StunAnswer {
    pub public_addr: SocketAddr,
    pub server: SocketAddr,
}

/// The search for two answers from different servers.
#[derive(Clone, Copy, Debug, PartialEq, Eq, Structural)]
pub struct StunSearch {
    pub first: Option<StunAnswer>,
}

/// The first answer among those of some servers, asked in turn.
pub open spec fn first_answer(answers: Seq<Option<StunAnswer>>) -> Option<StunAnswer>
    decreases answers.len(),
{
    if answers.len() == 0 {
        None
    } else if first_answer(answers.drop_last()) is Some {
        first_answer(answers.drop_last())
    } else {
        answers.last()
    }
}

impl StunSearch {
    pub fn new() -> (r: StunSearch)
        ensures
            r.first is None,
    {
        StunSearch { first: None }
    }

    /// The pair of our addresses that a next answer completes: it has to come from another server
    /// than the first.
    pub open spec fn completed(self, answer: Option<StunAnswer>) -> Option<
        (SocketAddr, SocketAddr),
    > {
        match (self.first, answer) {
            (Some(first), Some(second)) => if first.server != second.server {
                Some((first.public_addr, second.public_addr))
            } else {
                None
            },
            _ => None,
        }
    }

    /// Takes the answer of the next server, or that it gave none.
    pub fn take_answer(&mut self, answer: Option<StunAnswer>) -> (r: Option<
        (SocketAddr, SocketAddr),
    >)
        ensures
            r == old(self).completed(answer),
            final(self).first == if old(self).first is Some {
                old(self).first
            } else {
                answer
            },
    {
        match self.first {
            None => {
                self.first = answer;
                None
            },
            Some(first) => match answer {
                Some(second) => {
                    if first.server != second.server {
                        Some((first.public_addr, second.public_addr))
                    } else {
                        None
                    }
                },
                None => None,
            },
        }
    }
}

/// Tries the answers of a selection of stun servers until there are two results from different
/// servers.
pub fn multipe_attempt_stun_query(answers: &Vec<Option<StunAnswer>>) -> (r: Option<
    (SocketAddr, SocketAddr),
>)
    ensures
        match r {
            Some(pair) => exists|j: int|
                0 <= j < answers@.len() && (#[trigger] answers@[j]) is Some && first_answer(
                    answers@.take(j),
                ) is Some && first_answer(answers@.take(j))->Some_0.server
                    != answers@[j]->Some_0.server && pair == (
                    first_answer(answers@)->Some_0.public_addr,
                    answers@[j]->Some_0.public_addr,
                ) && forall|k: int|
                    0 <= k < j && (#[trigger] answers@[k]) is Some ==> answers@[k]->Some_0.server
                        == first_answer(answers@)->Some_0.server,
            None => forall|k: int|
                0 <= k < answers@.len() && (#[trigger] answers@[k]) is Some
                    ==> answers@[k]->Some_0.server == first_answer(answers@)->Some_0.server,
        },
{
    let mut search = StunSearch::new();
    let mut i: usize = 0;
    while i < answers.len()
        invariant
            i <= answers@.len(),
            search.first == first_answer(answers@.take(i as int)),
            forall|k: int|
                0 <= k < i && (#[trigger] answers@[k]) is Some ==> search.first is Some
                    && answers@[k]->Some_0.server == search.first->Some_0.server,
        decreases answers@.len() - i,
    {
        assert(answers@.take(i + 1).drop_last() == answers@.take(i as int));
        let ghost before = search;
        match search.take_answer(answers[i]) {
            Some(pair) => {
                proof {
                    lemma_first_answer_stays(answers@, i as int);
                    assert(answers@[i as int] is Some);
                }
                return Some(pair);
            },
            None => {},
        }
        i += 1;
    }
    assert(answers@.take(i as int) == answers@);
    None
}

proof fn lemma_first_answer_stays(answers: Seq<Option<StunAnswer>>, i: int)
    requires
        0 <= i <= answers.len(),
        first_answer(answers.take(i)) is Some,
    ensures
        first_answer(answers) == first_answer(answers.take(i)),
    decreases answers.len() - i,
{
    if i == answers.len() {
        assert(answers.take(i) == answers);
    } else {
        assert(answers.take(i + 1).drop_last() == answers.take(i));
        lemma_first_answer_stays(answers, i + 1);
    }
}

/// Calls `SliceRandom::partial_shuffle` and hands out the shuffled part: as many of the items as
/// were asked for, or all of them, each as often as it stands among the items at most.
#[verifier::external_body]
fn pick_some(items: Vec<String>, amount: usize) -> (r: Vec<String>)
    ensures
        r@.len() == if amount <= items@.len() {
            amount as nat
        } else {
            items@.len()
        },
        r@.to_multiset().subset_of(items@.to_multiset()),
{
    let mut items = items;
    items.partial_shuffle(&mut rand::thread_rng(), amount).0.to_vec()
}

/// The servers to ask: those that the user gave, or else a random selection of the known ones.
pub fn select_stun_servers(stun_servers: Option<Vec<String>>, known: Vec<String>) -> (r: Result<
    Vec<String>,
    String,
>)
    ensures
        match stun_servers {
            Some(servers) => if servers@.len() == 0 {
                r matches Err(error) && error@ == "No STUN servers provided"@
            } else {
                r matches Ok(selected) && selected@ == servers@
            },
            None => if known@.len() == 0 {
                r matches Err(error) && error@ == "No STUN servers provided"@
            } else {
                r matches Ok(selected) && selected@.to_multiset().subset_of(known@.to_multiset())
                    && selected@.len() == if known@.len() < MAX_STUN_SERVER_ATTEMPTS {
                    known@.len()
                } else {
                    MAX_STUN_SERVER_ATTEMPTS as nat
                }
            },
        },
{
    let selected = match stun_servers {
        Some(servers) => servers,
        None => pick_some(known, MAX_STUN_SERVER_ATTEMPTS),
    };
    if selected.len() == 0 {
        return Err("No STUN servers provided".to_owned());
    }
    Ok(selected)
}

/// The first answer is one of the answers, and no server that was asked before has given one.
pub proof fn law_first_answer_comes_first(answers: Seq<Option<StunAnswer>>)
    ensures
        match first_answer(answers) {
            Some(answer) => exists|i: int|
                0 <= i < answers.len() && #[trigger] answers[i] == Some(answer) && forall|k: int|
                    0 <= k < i ==> (#[trigger] answers[k]) is None,
            None => forall|k: int| 0 <= k < answers.len() ==> (#[trigger] answers[k]) is None,
        },
    decreases answers.len(),
{
    if answers.len() > 0 {
        let rest = answers.drop_last();
        let last = answers.len() - 1;
        law_first_answer_comes_first(rest);
        assert forall|k: int| 0 <= k < last implies rest[k] == #[trigger] answers[k] by {}
        match first_answer(rest) {
            Some(answer) => {
                let i = choose|i: int|
                    0 <= i < rest.len() && #[trigger] rest[i] == Some(answer) && forall|k: int|
                        0 <= k < i ==> (#[trigger] rest[k]) is None;
                assert(answers[i] == Some(answer));
                assert forall|k: int| 0 <= k < i implies (#[trigger] answers[k]) is None by {
                    assert(rest[k] is None);
                }
            },
            None => {
                assert forall|k: int| 0 <= k < last implies (#[trigger] answers[k]) is None by {
                    assert(rest[k] is None);
                }
                assert(answers[last] == answers.last());
            },
        }
    }
}

/// Only answers of two different servers make a pair, in the order in which they came.
pub proof fn law_pair_is_of_two_servers(search: StunSearch, answer: Option<StunAnswer>)
    ensures
        match search.completed(answer) {
            Some((first, second)) => {
                &&& search.first is Some
                &&& answer is Some
                &&& search.first->Some_0.server != answer->Some_0.server
                &&& first == search.first->Some_0.public_addr
                &&& second == answer->Some_0.public_addr
            },
            None => search.first is Some && answer is Some ==> search.first->Some_0.server
                == answer->Some_0.server,
        },
{
}

} // verus!
