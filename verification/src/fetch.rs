//! State of the live relay download, shared between the fetch task and the UI.

use std::sync::Arc;
use vstd::prelude::*;

use crate::relay::OnionooResponse;

verus! {

/// Where the download of relay data stands.
#[derive(Clone, Debug)]
pub enum FetchState {
    Idle,
    Loading,
    Done(Arc<OnionooResponse>),
    Error(String),
}

impl Default for FetchState {
    fn default() -> (r: Self)
        ensures
            r is Idle,
    {
        FetchState::Idle
    }
}

impl FetchState {
    /// The relays, once the download has finished.
    pub fn data(&self) -> (r: Option<Arc<OnionooResponse>>)
        ensures
            match self {
                FetchState::Done(d) => r == Some(*d),
                _ => r is None,
            },
    {
        match self {
            FetchState::Done(d) => Some(Arc::clone(d)),
            _ => None,
        }
    }

    /// The state a finished download leaves behind: the relays, or the
    /// error message.
    pub fn finished(result: Result<OnionooResponse, String>) -> (r: FetchState)
        ensures
            match result {
                Ok(data) => r matches FetchState::Done(d) && *d == data,
                Err(e) => r matches FetchState::Error(m) && m == e,
            },
    {
        match result {
            Ok(data) => FetchState::Done(Arc::new(data)),
            Err(e) => FetchState::Error(e),
        }
    }
}

} // verus!
