//! The search for local ports through which the peer can be reached.
use crate::random::{lemma_number_drawn, number_drawn, random_u32};
use vstd::prelude::*;

verus! {

/// How many ports are tried at most.
pub const MAX_ATTEMPTS: usize = 65536;

/// The highest port number that is never tried.
pub const RESERVED_PORT: u16 = 1024;

/// The search for a number of free ports, picked at random.
#[derive(Debug)]
pub struct PortSearch {
    /// How many ports are wanted.
    pub wanted: usize,
    /// The ports that were opened so far.
    pub opened: Vec<u16>,
    /// How many attempts are left.
    pub attempts_left: usize,
}

/// Why a search came to nothing.
#[derive(Clone, Copy, Debug, PartialEq, Eq, Structural)]
pub enum PortSearchError {
    /// No port could be opened.
    NothingOpened,
}

impl PortSearchError {
    /// The error in words.
    pub open spec fn text(self) -> Seq<char> {
        "Failed to open any ports for communication"@
    }

    /// The error in words.
    pub fn message(&self) -> (r: &'static str)
        ensures
            r@ == self.text(),
            r@ == "Failed to open any ports for communication"@,
    {
        "Failed to open any ports for communication"
    }
}

/// The port number that a random draw stands for, if it is one to try.
pub open spec fn spec_candidate(draw: u32) -> Option<u16> {
    if draw % 0x10000 > RESERVED_PORT {
        Some((draw % 0x10000) as u16)
    } else {
        None
    }
}

/// A draw leads to a port to try only if that port is not reserved, and every
/// port that is not reserved can come up.
pub proof fn law_candidates_are_the_unreserved_ports(port: u16)
    ensures
        port > RESERVED_PORT <==> exists|draw: u32| #[trigger] spec_candidate(draw) == Some(port),
{
    if port > RESERVED_PORT {
        assert(spec_candidate(port as u32) == Some(port));
    }
}

/// A draw stands for its lower half, if that is above 1024, and for nothing
/// else.
pub proof fn law_draw_stands_for_its_lower_half(draw: u32, port: u16)
    ensures
        spec_candidate(draw) == Some(port) <==> port > 1024 && port == draw % 0x10000,
        spec_candidate(draw) is None <==> draw % 0x10000 <= 1024,
{
}

/// The port number that a random draw stands for: its lower half. The reserved
/// ones are not tried.
pub fn candidate(draw: u32) -> (r: Option<u16>)
    ensures
        r == spec_candidate(draw),
        draw % 0x10000 <= 1024 ==> r is None,
        draw % 0x10000 > 1024 ==> (r matches Some(p) && p == draw % 0x10000),
{
    assert(draw & 0xFFFF == draw % 0x10000) by (bit_vector);
    let p: u16 = (draw & 0xFFFF) as u16;
    if p <= RESERVED_PORT {
        None
    } else {
        Some(p)
    }
}

/// Draws a port number at random. Where nothing comes back the draw was a
/// reserved port, and another one is to be made.
pub fn draw_candidate() -> (r: Option<u16>)
    ensures
        exists|draw: u32| r == #[trigger] spec_candidate(draw),
        exists|draw: u32| #[trigger]
            number_drawn(draw) && match r {
                None => draw % 0x10000 <= 1024,
                Some(p) => p > 1024 && p == draw % 0x10000,
            },
{
    let draw: u32 = random_u32();
    proof {
        lemma_number_drawn(draw);
    }
    candidate(draw)
}

impl PortSearch {
    /// Whether the ports that were opened are ones that can be tried, and are
    /// no more than are wanted, nor than attempts were made.
    pub open spec fn wf(self) -> bool {
        &&& self.opened@.len() <= self.wanted
        &&& self.opened@.len() + self.attempts_left <= MAX_ATTEMPTS
        &&& forall|i: int| 0 <= i < self.opened@.len() ==> #[trigger] self.opened@[i] > RESERVED_PORT
    }

    /// Whether the search is over: as many ports are open as are wanted, or no
    /// attempt is left.
    pub open spec fn spec_over(self) -> bool {
        self.opened@.len() >= self.wanted || self.attempts_left == 0
    }

    /// Whether this is the search `before`, one attempt to open `port` later.
    pub open spec fn follows(self, before: PortSearch, port: u16, success: bool) -> bool {
        &&& self.wanted == before.wanted
        &&& self.opened@ == if success {
            before.opened@.push(port)
        } else {
            before.opened@
        }
        &&& self.attempts_left == before.attempts_left - 1
    }

    /// A search for `wanted` ports.
    pub fn new(wanted: usize) -> (r: PortSearch)
        ensures
            r.wf(),
            r.wanted == wanted,
            r.opened@ == Seq::<u16>::empty(),
            r.attempts_left == MAX_ATTEMPTS,
            r.attempts_left == 65536,
            r.spec_over() <==> wanted == 0,
    {
        PortSearch { wanted, opened: Vec::new(), attempts_left: MAX_ATTEMPTS }
    }

    /// Whether the search is over.
    pub fn is_over(&self) -> (r: bool)
        ensures
            r == self.spec_over(),
            r <==> self.opened@.len() >= self.wanted || self.attempts_left == 0,
    {
        self.opened.len() >= self.wanted || self.attempts_left == 0
    }

    /// Takes note of an attempt to open `port`.
    pub fn attempted(&mut self, port: u16, success: bool)
        requires
            old(self).wf(),
            !old(self).spec_over(),
            port > RESERVED_PORT,
        ensures
            final(self).wf(),
            final(self).follows(*old(self), port, success),
            final(self).wanted == old(self).wanted,
            final(self).attempts_left == old(self).attempts_left - 1,
            success ==> final(self).opened@ == old(self).opened@.push(port),
            !success ==> final(self).opened@ == old(self).opened@,
    {
        if success {
            self.opened.push(port);
        }
        self.attempts_left = self.attempts_left - 1;
    }

    /// The ports that were opened, in the order in which they were.
    pub fn finish(self) -> (r: Result<Vec<u16>, PortSearchError>)
        ensures
            r is Err <==> self.opened@.len() == 0,
            r matches Ok(v) ==> v == self.opened,
            r matches Err(e) ==> e == PortSearchError::NothingOpened,
    {
        if self.opened.len() == 0 {
            Err(PortSearchError::NothingOpened)
        } else {
            Ok(self.opened)
        }
    }
}

/// Whether `states` are the states of a search for `wanted` ports from its
/// start on. From each one to the next an attempt is made at the port in
/// `tried`, with the outcome in `outcomes`; none is made once the search is
/// over.
pub open spec fn search_run(
    wanted: usize,
    states: Seq<PortSearch>,
    tried: Seq<u16>,
    outcomes: Seq<bool>,
) -> bool {
    &&& states.len() > 0
    &&& states[0].wanted == wanted
    &&& states[0].opened@ == Seq::<u16>::empty()
    &&& states[0].attempts_left == MAX_ATTEMPTS
    &&& forall|i: int|
        0 < i < states.len() ==> {
            &&& (#[trigger] states[i]).follows(states[i - 1], tried[i - 1], outcomes[i - 1])
            &&& !states[i - 1].spec_over()
        }
}

/// A search makes no more attempts than the limit, and never opens more ports
/// than are wanted; where none is wanted it makes no attempt.
pub proof fn law_search_is_bounded(
    wanted: usize,
    states: Seq<PortSearch>,
    tried: Seq<u16>,
    outcomes: Seq<bool>,
)
    requires
        search_run(wanted, states, tried, outcomes),
    ensures
        states.len() - 1 <= MAX_ATTEMPTS,
        states.last().opened@.len() <= wanted,
        wanted == 0 ==> states.len() == 1,
{
    lemma_search_attempts(wanted, states, tried, outcomes, states.len() - 1);
    lemma_search_opened(wanted, states, tried, outcomes, states.len() - 1);
    if wanted == 0 && states.len() > 1 {
        assert(states[1].follows(states[0], tried[0], outcomes[0]));
    }
}

/// A search ends with the ports that could be opened, in the order in which
/// they were tried, and with no other; it goes on exactly while fewer are open
/// than are wanted and fewer than 65536 were tried.
pub proof fn law_search_keeps_what_was_opened(
    wanted: usize,
    states: Seq<PortSearch>,
    tried: Seq<u16>,
    outcomes: Seq<bool>,
    i: int,
)
    requires
        search_run(wanted, states, tried, outcomes),
        0 <= i < states.len(),
        states.len() <= tried.len() + 1,
        states.len() <= outcomes.len() + 1,
    ensures
        states[i].spec_over() <==> states[i].opened@.len() >= wanted || i >= 65536,
        i > 0 && outcomes[i - 1] ==> states[i].opened@ == states[i - 1].opened@.push(tried[i - 1]),
        i > 0 && !outcomes[i - 1] ==> states[i].opened@ == states[i - 1].opened@,
        i == 0 ==> states[i].opened@.len() == 0,
{
    lemma_search_attempts(wanted, states, tried, outcomes, i);
    if i > 0 {
        assert(states[i].follows(states[i - 1], tried[i - 1], outcomes[i - 1]));
    }
}

proof fn lemma_search_attempts(
    wanted: usize,
    states: Seq<PortSearch>,
    tried: Seq<u16>,
    outcomes: Seq<bool>,
    i: int,
)
    requires
        search_run(wanted, states, tried, outcomes),
        0 <= i < states.len(),
    ensures
        states[i].attempts_left == MAX_ATTEMPTS - i,
        states[i].wanted == wanted,
    decreases i,
{
    if i > 0 {
        assert(states[i].follows(states[i - 1], tried[i - 1], outcomes[i - 1]));
        lemma_search_attempts(wanted, states, tried, outcomes, i - 1);
    }
}

proof fn lemma_search_opened(
    wanted: usize,
    states: Seq<PortSearch>,
    tried: Seq<u16>,
    outcomes: Seq<bool>,
    i: int,
)
    requires
        search_run(wanted, states, tried, outcomes),
        0 <= i < states.len(),
    ensures
        states[i].opened@.len() <= wanted,
    decreases i,
{
    if i > 0 {
        lemma_search_opened(wanted, states, tried, outcomes, i - 1);
        lemma_search_attempts(wanted, states, tried, outcomes, i - 1);
        assert(states[i].follows(states[i - 1], tried[i - 1], outcomes[i - 1]));
    }
}

} // verus!
