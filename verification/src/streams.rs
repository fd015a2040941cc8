//! Paging through data for subscription streams.
//!
//! A stream fetches a page of data, hands out what it has not handed out yet,
//! and waits for a notification when there is nothing new. The decisions of
//! one round stand here; the fetching and the waiting belong to the caller.
use core::time::Duration;
use vstd::prelude::*;

verus! {

/// The position in the data: a page and an index within it.
#[derive(Debug, PartialEq, Eq)]
struct Pos {
    page: usize,
    index: usize,
}

/// Where the stream is: at a position, or done after an error.
#[derive(Debug, PartialEq, Eq)]
enum State {
    Pos(Pos),
    Done,
}

/// Where the data starts: a time and a number, each optional.
#[derive(Debug, PartialEq, Eq)]
struct Start {
    time: Option<Duration>,
    number: Option<u64>,
}

/// State of the stream.
#[derive(Debug, PartialEq, Eq)]
pub struct StreamState {
    state: State,
    start: Start,
}

/// Get data from this point.
#[derive(Debug, PartialEq, Eq)]
pub struct GetData {
    /// Page number to get data from.
    pub page: usize,
    /// Time to get data from.
    pub time: Option<Duration>,
    /// Number to get data from.
    pub number: Option<u64>,
}

/// What one round of the stream comes to, given the page that was fetched.
#[derive(Debug)]
pub enum NextData<D, E> {
    /// The stream is done; it yields nothing more.
    Done,
    /// The page holds nothing new: wait for a notification, then fetch again
    /// from the state handed back, which is the state given.
    Wait(StreamState),
    /// The new data of the page, and the state to continue from.
    Data(Vec<D>, StreamState),
    /// Fetching failed: the error, and a state in which the stream is done.
    Failed(E, StreamState),
}

impl StreamState {
    /// The position of the stream as (page, index), or `None` once it is done.
    pub closed spec fn spec_position(&self) -> Option<(usize, usize)> {
        match self.state {
            State::Pos(p) => Some((p.page, p.index)),
            State::Done => None,
        }
    }

    /// The time the stream starts from.
    pub closed spec fn spec_start_time(&self) -> Option<Duration> {
        self.start.time
    }

    /// The number the stream starts from.
    pub closed spec fn spec_start_number(&self) -> Option<u64> {
        self.start.number
    }

    /// Create a new stream state from a page.
    pub fn new(page: Option<usize>, time: Option<Duration>, number: Option<u64>) -> (s: Self)
        ensures
            s.spec_position() == Some((
                match page {
                    Some(p) => p,
                    None => 0usize,
                },
                0usize,
            )),
            s.spec_start_time() == time,
            s.spec_start_number() == number,
    {
        let page = match page {
            Some(p) => p,
            None => 0,
        };
        StreamState { state: State::Pos(Pos { page, index: 0 }), start: Start { time, number } }
    }

    /// The position of the stream as (page, index), or `None` once it is done.
    pub fn position(&self) -> (r: Option<(usize, usize)>)
        ensures
            r == self.spec_position(),
    {
        match &self.state {
            State::Pos(p) => Some((p.page, p.index)),
            State::Done => None,
        }
    }

    /// Whether the stream is done.
    pub fn is_done(&self) -> (r: bool)
        ensures
            r == (self.spec_position() is None),
    {
        match &self.state {
            State::Pos(_) => false,
            State::Done => true,
        }
    }

    /// The time the stream starts from.
    pub fn start_time(&self) -> (r: Option<Duration>)
        ensures
            r == self.spec_start_time(),
    {
        self.start.time
    }

    /// The number the stream starts from.
    pub fn start_number(&self) -> (r: Option<u64>)
        ensures
            r == self.spec_start_number(),
    {
        self.start.number
    }

    /// What to fetch next: the page of the current position with the start
    /// time and number; `None` once the stream is done.
    pub fn get_data(&self) -> (r: Option<GetData>)
        ensures
            match r {
                Some(g) => {
                    &&& self.spec_position() is Some
                    &&& g.page == self.spec_position().unwrap().0
                    &&& g.time == self.spec_start_time()
                    &&& g.number == self.spec_start_number()
                },
                None => self.spec_position() is None,
            },
    {
        match &self.state {
            State::Pos(p) => Some(GetData { page: p.page, time: self.start.time, number: self.start.number }),
            State::Done => None,
        }
    }
}

impl Default for StreamState {
    fn default() -> (s: Self)
        ensures
            s.spec_position() == Some((0usize, 0usize)),
            s.spec_start_time() is None,
            s.spec_start_number() is None,
    {
        StreamState { state: State::Pos(Pos { page: 0, index: 0 }), start: Start { time: None, number: None } }
    }
}

/// The position after handing out the data of a page of `len` items fetched
/// at (`page`, `index`): the next page once the page is full, else the end
/// of this page.
pub open spec fn spec_next_position(page: usize, len: nat, page_size: usize) -> (usize, usize) {
    if len >= page_size {
        ((page + 1) as usize, 0usize)
    } else {
        (page, len as usize)
    }
}

/// Whether a round can go without overflow: the page number can advance
/// wherever a full page is handed out.
pub open spec fn step_in_range<D, E>(state: StreamState, page_size: usize, fetched: Result<Vec<D>, E>) -> bool {
    match (state.spec_position(), fetched) {
        (Some((page, index)), Ok(data)) => index < data@.len() && data@.len() >= page_size ==> page < usize::MAX,
        _ => true,
    }
}

/// Decides one round of the stream from the page that [`StreamState::get_data`]
/// asked for. A done stream stays done. A page that holds no item beyond the
/// index means waiting. Otherwise the items from the index on are handed out,
/// and the stream moves to the next page when this one is full, else to the
/// end of this one. An error is handed out once and ends the stream.
pub fn next_data<D, E>(state: StreamState, page_size: usize, fetched: Result<Vec<D>, E>) -> (r: NextData<D, E>)
    requires
        step_in_range(state, page_size, fetched),
    ensures
        match (state.spec_position(), fetched) {
            (None, _) => r is Done,
            (Some((page, index)), Ok(data)) => if index >= data@.len() {
                r == NextData::<D, E>::Wait(state)
            } else {
                match r {
                    NextData::Data(items, next) => {
                        &&& items@ == data@.subrange(index as int, data@.len() as int)
                        &&& next.spec_position() == Some(spec_next_position(page, data@.len(), page_size))
                        &&& next.spec_start_time() == state.spec_start_time()
                        &&& next.spec_start_number() == state.spec_start_number()
                    },
                    _ => false,
                }
            },
            (Some(_), Err(e)) => match r {
                NextData::Failed(e2, next) => {
                    &&& e2 == e
                    &&& next.spec_position() is None
                    &&& next.spec_start_time() == state.spec_start_time()
                    &&& next.spec_start_number() == state.spec_start_number()
                },
                _ => false,
            },
        },
{
    let StreamState { state: st, start } = state;
    let pos = match st {
        State::Pos(p) => p,
        State::Done => {
            return NextData::Done;
        },
    };
    match fetched {
        Ok(data) => {
            if pos.index >= data.len() {
                return NextData::Wait(StreamState { state: State::Pos(pos), start });
            }
            let mut data = data;
            let len = data.len();
            let next = if len >= page_size {
                Pos { page: pos.page + 1, index: 0 }
            } else {
                Pos { page: pos.page, index: len }
            };
            let items = data.split_off(pos.index);
            NextData::Data(items, StreamState { state: State::Pos(next), start })
        },
        Err(e) => NextData::Failed(e, StreamState { state: State::Done, start }),
    }
}

/// After a round that came to [`NextData::Wait`], decides from how the wait
/// for new data ended: on a notification the stream fetches again from the
/// same state; where the notifications have stopped, the program is shutting
/// down and the stream ends.
pub fn resume_after_wait<E>(state: StreamState, waited: Result<(), E>) -> (r: Option<StreamState>)
    ensures
        waited is Ok ==> r == Some(state),
        waited is Err ==> r is None,
{
    match waited {
        Ok(()) => Some(state),
        Err(_) => None,
    }
}

/// A round that hands out data moves the stream strictly forward, to a later
/// page or further into the same page, so no item is handed out twice.
pub proof fn lemma_data_moves_forward(page: usize, index: usize, len: nat, page_size: usize)
    requires
        index < len,
        len >= page_size ==> page < usize::MAX,
    ensures
        ({
            let (p2, i2) = spec_next_position(page, len, page_size);
            p2 > page || (p2 == page && i2 > index)
        }),
{
}

} // verus!
