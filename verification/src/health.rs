//! Health figures of the running pipeline, as read by the status surface.

use vstd::prelude::*;

verus! {

/// Health figures. Written by the feed ingestor, the window consumer and
/// the writer; read by the status surface.
#[derive(Debug)]
pub struct HealthState {
    /// Whether the feed transport is connected and in its main loop.
    pub ws_connected: bool,
    /// Nanoseconds since the epoch of the last window close; 0 for none.
    pub last_window_at_ns: u64,
    /// Number of window closes queued for writing. Counts modulo 2^64.
    pub write_queue_pending: u64,
}

impl HealthState {
    /// Not connected, no window yet, nothing queued.
    pub fn new() -> (r: Self)
        ensures
            !r.ws_connected,
            r.last_window_at_ns == 0,
            r.write_queue_pending == 0,
    {
        HealthState { ws_connected: false, last_window_at_ns: 0, write_queue_pending: 0 }
    }

    pub fn set_ws_connected(&mut self, v: bool)
        ensures
            *final(self) == (HealthState { ws_connected: v, ..*old(self) }),
    {
        self.ws_connected = v;
    }

    pub fn set_last_window_at_ns(&mut self, ns: u64)
        ensures
            *final(self) == (HealthState { last_window_at_ns: ns, ..*old(self) }),
    {
        self.last_window_at_ns = ns;
    }

    /// One more write is queued. Wraps around at 2^64.
    pub fn inc_write_queue_pending(&mut self)
        ensures
            *final(self) == (HealthState {
                write_queue_pending: if old(self).write_queue_pending == u64::MAX {
                    0
                } else {
                    (old(self).write_queue_pending + 1) as u64
                },
                ..*old(self)
            }),
    {
        self.write_queue_pending = if self.write_queue_pending == u64::MAX {
            0
        } else {
            self.write_queue_pending + 1
        };
    }

    /// One queued write is done. Wraps around at zero.
    pub fn dec_write_queue_pending(&mut self)
        ensures
            *final(self) == (HealthState {
                write_queue_pending: if old(self).write_queue_pending == 0 {
                    u64::MAX
                } else {
                    (old(self).write_queue_pending - 1) as u64
                },
                ..*old(self)
            }),
    {
        self.write_queue_pending = if self.write_queue_pending == 0 {
            u64::MAX
        } else {
            self.write_queue_pending - 1
        };
    }

    pub fn ws_connected(&self) -> (r: bool)
        ensures
            r == self.ws_connected,
    {
        self.ws_connected
    }

    pub fn last_window_at_ns(&self) -> (r: u64)
        ensures
            r == self.last_window_at_ns,
    {
        self.last_window_at_ns
    }

    pub fn write_queue_pending(&self) -> (r: u64)
        ensures
            r == self.write_queue_pending,
    {
        self.write_queue_pending
    }
}

} // verus!
