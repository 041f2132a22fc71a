//! The server's decisions: which engine and pool a name selects, whether
//! the engine sentinel allows a start, how one request is carried out
//! against an engine, and what response an outcome is answered with.
//!
//! The surrounding program owns the listener and the streams; it hands one
//! parsed request at a time to `handle_operation` and sends back the
//! response `Response::for_result` builds.

use vstd::prelude::*;
use crate::KvError;
use crate::engine::KvsEngine;
use crate::protocol::Operation;
use crate::protocol::OperationView;
use crate::protocol::Response;
use crate::protocol::ResponseStatus;
use crate::protocol::ResponseView;
use crate::text::str_eq;

verus! {

/// The storage backends a server can run on.
#[derive(Clone, Copy, Debug, PartialEq, Eq, Structural)]
pub enum EngineChoice {
    /// This library's log-structured store.
    Kvs,
    /// The embedded B-tree store.
    Sled,
}

/// The thread pools a server can dispatch connections with.
#[derive(Clone, Copy, Debug, PartialEq, Eq, Structural)]
pub enum PoolChoice {
    /// One fresh thread per job.
    Naive,
    /// A fixed team of workers over one shared queue.
    Queued,
    /// The work-stealing pool of the outside library.
    Rayon,
}

/// The engine a command-line name selects: `kvs` or `sled`, anything else
/// is an invalid configuration.
pub fn parse_engine_name(name: &str) -> (r: Result<EngineChoice, KvError>)
    ensures
        name@ == "kvs"@ ==> r == Ok::<EngineChoice, KvError>(EngineChoice::Kvs),
        name@ == "sled"@ ==> r == Ok::<EngineChoice, KvError>(EngineChoice::Sled),
        name@ != "kvs"@ && name@ != "sled"@ ==> r == Err::<EngineChoice, KvError>(
            KvError::ConfigInvalid,
        ),
{
    proof {
        reveal_strlit("kvs");
        reveal_strlit("sled");
        assert("kvs"@.len() == 3);
        assert("sled"@.len() == 4);
    }
    if str_eq(name, "kvs") {
        Ok(EngineChoice::Kvs)
    } else if str_eq(name, "sled") {
        Ok(EngineChoice::Sled)
    } else {
        Err(KvError::ConfigInvalid)
    }
}

/// The pool a command-line name selects: `naive`, `queued` or `rayon`,
/// anything else is an invalid configuration.
pub fn parse_pool_name(name: &str) -> (r: Result<PoolChoice, KvError>)
    ensures
        name@ == "naive"@ ==> r == Ok::<PoolChoice, KvError>(PoolChoice::Naive),
        name@ == "queued"@ ==> r == Ok::<PoolChoice, KvError>(PoolChoice::Queued),
        name@ == "rayon"@ ==> r == Ok::<PoolChoice, KvError>(PoolChoice::Rayon),
        name@ != "naive"@ && name@ != "queued"@ && name@ != "rayon"@ ==> r == Err::<
            PoolChoice,
            KvError,
        >(KvError::ConfigInvalid),
{
    proof {
        reveal_strlit("naive");
        reveal_strlit("queued");
        reveal_strlit("rayon");
        assert("naive"@.len() == 5);
        assert("queued"@.len() == 6);
        assert("queued"@[0] == 'q');
        assert("rayon"@.len() == 5);
        assert("rayon"@[0] == 'r');
        assert("naive"@[0] == 'n');
    }
    if str_eq(name, "naive") {
        Ok(PoolChoice::Naive)
    } else if str_eq(name, "queued") {
        Ok(PoolChoice::Queued)
    } else if str_eq(name, "rayon") {
        Ok(PoolChoice::Rayon)
    } else {
        Err(KvError::ConfigInvalid)
    }
}

/// Whether a server may start with `requested` as its engine, given what
/// the sentinel file holds. An empty sentinel is a first run: the start is
/// allowed and the sentinel must be written (`Ok(true)`). A sentinel equal
/// to the request allows the start with nothing to write (`Ok(false)`).
/// Anything else is a mismatch and the start is refused.
pub fn check_engine_choice(previous: &str, requested: &str) -> (r: Result<bool, KvError>)
    ensures
        previous@.len() == 0 ==> r == Ok::<bool, KvError>(true),
        previous@.len() > 0 && previous@ == requested@ ==> r == Ok::<bool, KvError>(false),
        previous@.len() > 0 && previous@ != requested@ ==> r == Err::<bool, KvError>(
            KvError::EngineMismatch,
        ),
{
    if previous.unicode_len() == 0 {
        Ok(true)
    } else if str_eq(previous, requested) {
        Ok(false)
    } else {
        Err(KvError::EngineMismatch)
    }
}

/// Carry one parsed request out against the engine: a `Put` or `Remove`
/// answers with no data, a `Get` with the value looked up; any engine
/// failure is handed back for the caller to answer `FAIL` with.
pub fn handle_operation<E: KvsEngine>(operation: Operation, store: &mut E) -> (r: Result<
    Option<String>,
    KvError,
>)
    requires
        old(store).ready(),
    ensures
        final(store).ready(),
        final(store).models() == old(store).models(),
        old(store).models() ==> match operation@ {
            OperationView::Put { k, v } => r == Ok::<Option<String>, KvError>(None)
                && final(store).model() == old(store).model().insert(k, v),
            OperationView::Get { k } => final(store).model() == old(store).model() && (match r {
                Ok(Some(v)) => old(store).model().contains_key(k) && v@ == old(store).model()[k],
                Ok(None) => !old(store).model().contains_key(k),
                Err(_) => false,
            }),
            OperationView::Remove { k } => final(store).models() && (match r {
                Ok(d) => d is None && old(store).model().contains_key(k) && final(store).model()
                    == old(store).model().remove(k),
                Err(e) => e == KvError::KeyNotFound && !old(store).model().contains_key(k)
                    && final(store).model() == old(store).model(),
            }),
        },
{
    match operation {
        Operation::Put(k, v) => {
            match store.set(k, v) {
                Ok(_) => Ok(None),
                Err(e) => Err(e),
            }
        },
        Operation::Get(k) => store.get(k),
        Operation::Remove(k) => {
            match store.remove(k) {
                Ok(_) => Ok(None),
                Err(e) => Err(e),
            }
        },
    }
}

impl Response {
    /// The response the server answers an outcome with: `OK` with the
    /// outcome's data on success, a bare `FAIL` on any failure.
    pub fn for_result(result: Result<Option<String>, KvError>) -> (resp: Response)
        ensures
            match result {
                Ok(d) => resp@ == (ResponseView {
                    status: ResponseStatus::Okay,
                    data: match d {
                        Some(s) => Some(s@),
                        None => None::<Seq<char>>,
                    },
                }),
                Err(_) => resp@ == (ResponseView {
                    status: ResponseStatus::Fail,
                    data: None::<Seq<char>>,
                }),
            },
    {
        match result {
            Ok(data) => Response { status: ResponseStatus::Okay, data },
            Err(_) => Response { status: ResponseStatus::Fail, data: None },
        }
    }
}

} // verus!
