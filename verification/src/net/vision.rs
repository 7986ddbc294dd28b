//! Where vision and ground-truth packets go.
use vstd::prelude::*;

verus! {

/// Default vision port.
pub const VISION_PORT: u16 = 10020;

/// Default ground-truth (tracked) port.
pub const TRUTH_PORT: u16 = 10010;

/// Multicast TTL: 1 = stay on the local link.
pub const MULTICAST_TTL: u32 = 1;

/// The destination of the published streams, on a host of type `A`.
#[derive(Clone, Copy, Debug, PartialEq, Eq)]
pub struct VisionPublisher<A> {
    host: A,
    port: u16,
    truth: bool,
    truth_frame: u32,
}

impl<A: Copy> VisionPublisher<A> {
    /// The host that both streams go to.
    pub closed spec fn spec_host(&self) -> A {
        self.host
    }

    /// The port of the vision stream.
    pub closed spec fn spec_port(&self) -> u16 {
        self.port
    }

    /// Whether the ground-truth stream is enabled.
    pub closed spec fn spec_truth(&self) -> bool {
        self.truth
    }

    /// Number of the next ground-truth frame.
    pub closed spec fn spec_frame(&self) -> u32 {
        self.truth_frame
    }

    /// Publish vision to `host` at `port`. `truth` enables the ground-truth
    /// stream on the same host at [`TRUTH_PORT`].
    pub fn new(host: A, port: u16, truth: bool) -> (res: Self)
        ensures
            res.spec_host() == host,
            res.spec_port() == port,
            res.spec_truth() == truth,
            res.spec_frame() == 0,
    {
        VisionPublisher { host, port, truth, truth_frame: 0 }
    }

    /// Current vision destination.
    pub fn addr(&self) -> (res: (A, u16))
        ensures
            res == (self.spec_host(), self.spec_port()),
    {
        (self.host, self.port)
    }

    /// Change the vision port; the ground-truth stream stays where it is.
    pub fn set_port(&mut self, port: u16)
        ensures
            final(self).spec_port() == port,
            final(self).spec_host() == old(self).spec_host(),
            final(self).spec_truth() == old(self).spec_truth(),
            final(self).spec_frame() == old(self).spec_frame(),
    {
        self.port = port;
    }

    /// Whether the ground-truth stream is enabled.
    pub fn truth_enabled(&self) -> (res: bool)
        ensures
            res == self.spec_truth(),
    {
        self.truth
    }

    /// Destination and number of the next ground-truth frame, when that stream is
    /// enabled; frame numbers count up and wrap around.
    pub fn next_truth(&mut self) -> (res: Option<((A, u16), u32)>)
        ensures
            final(self).spec_host() == old(self).spec_host(),
            final(self).spec_port() == old(self).spec_port(),
            final(self).spec_truth() == old(self).spec_truth(),
            old(self).spec_truth() ==> {
                &&& res == Some(((old(self).spec_host(), TRUTH_PORT), old(self).spec_frame()))
                &&& final(self).spec_frame() == if old(self).spec_frame() == u32::MAX {
                    0
                } else {
                    old(self).spec_frame() + 1
                }
            },
            !old(self).spec_truth() ==> res is None && final(self).spec_frame() == old(
                self,
            ).spec_frame(),
    {
        if !self.truth {
            return None;
        }
        let n: u32 = self.truth_frame;
        self.truth_frame = n.wrapping_add(1);
        Some(((self.host, TRUTH_PORT), n))
    }
}

/// The ports of the streams, and that they stay on the local link.
pub proof fn law_stream_ports()
    ensures
        VISION_PORT == 10020,
        TRUTH_PORT == 10010,
        MULTICAST_TTL == 1,
{
}

} // verus!
