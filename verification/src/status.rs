//! Server status: counters of open documents, requests, errors,
//! completions, hovers and published diagnostics, and the start time.
//!
//! The counters count modulo the width of their type, as atomic counters do.

use vstd::prelude::*;
use std::time::Instant;
use core::time::Duration;

verus! {

#[verifier::external_type_specification]
#[verifier::external_body]
pub struct ExInstant(Instant);

/// The current time, from `Instant::now`. Nothing is claimed of it.
#[verifier::external_body]
fn instant_now() -> Instant {
    Instant::now()
}

/// The time since `start`, from `Instant::elapsed`. Nothing is claimed of
/// it: it depends on the clock.
#[verifier::external_body]
fn instant_elapsed(start: &Instant) -> Duration {
    start.elapsed()
}

/// The counters at one moment.
#[derive(Debug, Clone, Copy, PartialEq, Eq, Structural)]
pub struct StatusCounts {
    pub document_count: usize,
    pub request_count: u64,
    pub error_count: u64,
    pub completion_count: u64,
    pub hover_count: u64,
    pub diagnostic_count: u64,
}

/// Tracks the server's start time and its counters.
pub struct ServerStatus {
    start_time: Instant,
    document_count: usize,
    request_count: u64,
    error_count: u64,
    completion_count: u64,
    hover_count: u64,
    diagnostic_count: u64,
}

/// All counters at zero.
pub open spec fn zero_counts() -> StatusCounts {
    StatusCounts {
        document_count: 0,
        request_count: 0,
        error_count: 0,
        completion_count: 0,
        hover_count: 0,
        diagnostic_count: 0,
    }
}

pub open spec fn inc64(x: u64) -> u64 {
    if x == u64::MAX { 0 } else { (x + 1) as u64 }
}

pub open spec fn inc_usize(x: usize) -> usize {
    if x == usize::MAX { 0 } else { (x + 1) as usize }
}

pub open spec fn dec_usize(x: usize) -> usize {
    if x == 0 { usize::MAX } else { (x - 1) as usize }
}

fn wrapping_inc(x: u64) -> (r: u64)
    ensures
        r == inc64(x),
{
    if x == u64::MAX { 0 } else { x + 1 }
}

impl ServerStatus {
    /// The counters.
    pub closed spec fn counts(&self) -> StatusCounts {
        StatusCounts {
            document_count: self.document_count,
            request_count: self.request_count,
            error_count: self.error_count,
            completion_count: self.completion_count,
            hover_count: self.hover_count,
            diagnostic_count: self.diagnostic_count,
        }
    }

    /// The moment the server started.
    pub closed spec fn start(&self) -> Instant {
        self.start_time
    }

    /// A status started now, with all counters at zero.
    pub fn new() -> (r: ServerStatus)
        ensures
            r.counts() == zero_counts(),
    {
        ServerStatus {
            start_time: instant_now(),
            document_count: 0,
            request_count: 0,
            error_count: 0,
            completion_count: 0,
            hover_count: 0,
            diagnostic_count: 0,
        }
    }

    /// One more open document.
    pub fn increment_document_count(&mut self)
        ensures
            final(self).counts() == (StatusCounts { document_count: inc_usize(old(self).counts().document_count), ..old(self).counts() }),
            final(self).start() == old(self).start(),
    {
        self.document_count = if self.document_count == usize::MAX { 0 } else { self.document_count + 1 };
    }

    /// One document fewer.
    pub fn decrement_document_count(&mut self)
        ensures
            final(self).counts() == (StatusCounts { document_count: dec_usize(old(self).counts().document_count), ..old(self).counts() }),
            final(self).start() == old(self).start(),
    {
        self.document_count = if self.document_count == 0 { usize::MAX } else { self.document_count - 1 };
    }

    /// One more request.
    pub fn record_request(&mut self)
        ensures
            final(self).counts() == (StatusCounts { request_count: inc64(old(self).counts().request_count), ..old(self).counts() }),
            final(self).start() == old(self).start(),
    {
        self.request_count = wrapping_inc(self.request_count);
    }

    /// One more error.
    pub fn record_error(&mut self)
        ensures
            final(self).counts() == (StatusCounts { error_count: inc64(old(self).counts().error_count), ..old(self).counts() }),
            final(self).start() == old(self).start(),
    {
        self.error_count = wrapping_inc(self.error_count);
    }

    /// One more completion request.
    pub fn record_completion(&mut self)
        ensures
            final(self).counts() == (StatusCounts { completion_count: inc64(old(self).counts().completion_count), ..old(self).counts() }),
            final(self).start() == old(self).start(),
    {
        self.completion_count = wrapping_inc(self.completion_count);
    }

    /// One more hover request.
    pub fn record_hover(&mut self)
        ensures
            final(self).counts() == (StatusCounts { hover_count: inc64(old(self).counts().hover_count), ..old(self).counts() }),
            final(self).start() == old(self).start(),
    {
        self.hover_count = wrapping_inc(self.hover_count);
    }

    /// One more published diagnostic.
    pub fn record_diagnostic(&mut self)
        ensures
            final(self).counts() == (StatusCounts { diagnostic_count: inc64(old(self).counts().diagnostic_count), ..old(self).counts() }),
            final(self).start() == old(self).start(),
    {
        self.diagnostic_count = wrapping_inc(self.diagnostic_count);
    }

    /// How long the server has been running.
    pub fn uptime(&self) -> Duration {
        instant_elapsed(&self.start_time)
    }

    /// The current counters.
    pub fn get_counts(&self) -> (r: StatusCounts)
        ensures
            r == self.counts(),
    {
        StatusCounts {
            document_count: self.document_count,
            request_count: self.request_count,
            error_count: self.error_count,
            completion_count: self.completion_count,
            hover_count: self.hover_count,
            diagnostic_count: self.diagnostic_count,
        }
    }

    /// Sets every counter back to zero; the start time is kept.
    pub fn reset(&mut self)
        ensures
            final(self).counts() == zero_counts(),
            final(self).start() == old(self).start(),
    {
        self.document_count = 0;
        self.request_count = 0;
        self.error_count = 0;
        self.completion_count = 0;
        self.hover_count = 0;
        self.diagnostic_count = 0;
    }
}

/// Closing a document undoes opening one: the count comes back, whatever
/// it was.
pub proof fn law_open_then_close(c: usize)
    ensures
        dec_usize(inc_usize(c)) == c,
{
}

/// Opening a document undoes closing one.
pub proof fn law_close_then_open(c: usize)
    ensures
        inc_usize(dec_usize(c)) == c,
{
}

impl Default for ServerStatus {
    /// A tracker started now, with every counter at zero.
    fn default() -> (r: ServerStatus)
        ensures
            r.counts() == zero_counts(),
    {
        Self::new()
    }
}

} // verus!
