//! What every transport has in common.

use vstd::prelude::*;
use crate::text::chars_of;
use crate::text::range_is;
use crate::text::split;
use crate::text::split_fields;

verus! {

/// Does nothing.
pub fn noop() {
}

/// How far a transport is open.
#[derive(Debug, Clone, Copy, PartialEq, Eq, Structural)]
pub enum ReadyState {
    /// Open for traffic.
    Open,
    /// On its way to being closed.
    Closing,
    /// Closed.
    Closed,
}

impl Default for ReadyState {
    /// Closed.
    fn default() -> (s: Self)
        ensures
            s == ReadyState::Closed,
    {
        ReadyState::Closed
    }
}

/// Whether one `key=value` pair of a query sets `b64` to `true`.
pub open spec fn pair_sets_base64(pair: Seq<char>) -> bool {
    let fields = split(pair, '=');
    fields.len() >= 2 && fields[0] == "b64"@ && fields[1] == "true"@
}

/// Whether a query sets `b64` to `true` in one of its pairs.
pub open spec fn query_sets_base64(query: Seq<char>) -> bool {
    exists|i: int| 0 <= i < split(query, '&').len() && pair_sets_base64(#[trigger] split(query, '&')[i])
}

/// Whether a query sets `b64` to `true` in one of its pairs.
pub fn sets_base64(query: &str) -> (found: bool)
    ensures
        found == query_sets_base64(query@),
{
    let chars: Vec<char> = chars_of(query);
    let n: usize = chars.len();
    assert(chars@.subrange(0, n as int) =~= chars@);
    let pairs: Vec<(usize, usize)> = split_fields(&chars, 0, n, '&');
    let mut i: usize = 0;
    while i < pairs.len()
        invariant
            i <= pairs@.len(),
            chars@ == query@,
            pairs@.len() == split(query@, '&').len(),
            forall|k: int|
                0 <= k < pairs@.len() ==> 0 <= (#[trigger] pairs@[k]).0 <= pairs@[k].1 <= chars@.len()
                    && chars@.subrange(pairs@[k].0 as int, pairs@[k].1 as int) == split(
                    query@,
                    '&',
                )[k],
            forall|k: int| 0 <= k < i ==> !pair_sets_base64(#[trigger] split(query@, '&')[k]),
        decreases pairs@.len() - i,
    {
        let from: usize = pairs[i].0;
        let to: usize = pairs[i].1;
        let fields: Vec<(usize, usize)> = split_fields(&chars, from, to, '=');
        if fields.len() >= 2 && range_is(&chars, fields[0].0, fields[0].1, "b64") && range_is(
            &chars,
            fields[1].0,
            fields[1].1,
            "true",
        ) {
            assert(pair_sets_base64(split(query@, '&')[i as int]));
            return true;
        }
        i = i + 1;
    }
    false
}

/// The state that every transport has.
#[derive(Debug, Clone, PartialEq, Eq)]
pub struct TransportBase {
    /// The id of the session that the transport carries.
    pub sid: String,
    /// Whether the transport can be written to.
    pub writable: bool,
    /// How far the transport is open.
    pub ready_state: ReadyState,
    /// Whether the transport has been discarded.
    pub discarded: bool,
    /// What the request that opened the transport said of `b64`.
    pub binary_supported: bool,
}

impl TransportBase {
    /// An open transport for a request with the given query. It has no
    /// session id yet and cannot be written to.
    pub fn new(query: Option<&str>) -> (transport: Self)
        ensures
            transport.sid@.len() == 0,
            !transport.writable,
            transport.ready_state == ReadyState::Open,
            !transport.discarded,
            transport.binary_supported == match query {
                Some(q) => query_sets_base64(q@),
                None => false,
            },
    {
        TransportBase {
            sid: String::new(),
            writable: false,
            ready_state: ReadyState::Open,
            discarded: false,
            binary_supported: match query {
                Some(q) => sets_base64(q),
                None => false,
            },
        }
    }

    /// How far the transport is open.
    pub fn ready_state(&self) -> (state: ReadyState)
        ensures
            state == self.ready_state,
    {
        self.ready_state
    }

    /// Sets how far the transport is open.
    pub fn set_ready_state(&mut self, state: ReadyState)
        ensures
            *final(self) == (TransportBase { ready_state: state, ..*old(self) }),
    {
        self.ready_state = state;
    }

    /// Marks the transport as discarded.
    pub fn discard(&mut self)
        ensures
            *final(self) == (TransportBase { discarded: true, ..*old(self) }),
    {
        self.discarded = true;
    }

    /// Whether the transport has been discarded.
    pub fn is_discarded(&self) -> (b: bool)
        ensures
            b == self.discarded,
    {
        self.discarded
    }

    /// What the request that opened the transport said of `b64`.
    pub fn supports_binary(&self) -> (b: bool)
        ensures
            b == self.binary_supported,
    {
        self.binary_supported
    }

    /// Starts closing an open transport; a transport that is closing or
    /// closed stays as it is.
    pub fn close(&mut self)
        ensures
            *final(self) == (TransportBase {
                ready_state: if old(self).ready_state == ReadyState::Open {
                    ReadyState::Closing
                } else {
                    old(self).ready_state
                },
                ..*old(self)
            }),
    {
        match self.ready_state {
            ReadyState::Open => {
                self.ready_state = ReadyState::Closing;
            },
            _ => {},
        }
    }
}

} // verus!
