//! What a plane carries besides its cells.

use vstd::prelude::*;
use crate::plane::{NcPlane, NcPlaneView};
use crate::resizecb::NcResizeCb;

verus! {

impl NcPlane {
    /// The channels that new output takes.
    pub fn channels(&self) -> (ch: u64)
        ensures
            ch == self@.channels,
    {
        self.channels
    }

    /// Sets the channels that new output takes.
    pub fn set_channels(&mut self, channels: u64)
        requires
            old(self).wf(),
        ensures
            final(self).wf(),
            final(self)@ == (NcPlaneView { channels, ..old(self)@ }),
    {
        self.channels = channels;
    }

    /// The styles that new output takes.
    pub fn styles(&self) -> (s: u16)
        ensures
            s == self@.stylemask,
    {
        self.stylemask
    }

    /// Sets the styles that new output takes.
    pub fn set_styles(&mut self, stylemask: u16)
        requires
            old(self).wf(),
        ensures
            final(self).wf(),
            final(self)@ == (NcPlaneView { stylemask, ..old(self)@ }),
    {
        self.stylemask = stylemask;
    }

    /// The option bits that the plane was created with.
    pub fn flags(&self) -> (f: u64)
        ensures
            f == self@.flags,
    {
        self.flags
    }

    /// The caller's value.
    pub fn userptr(&self) -> (u: Option<u64>)
        ensures
            u == self@.userptr,
    {
        self.userptr
    }

    /// Sets the caller's value, and gives the one that was set before.
    pub fn set_userptr(&mut self, userptr: Option<u64>) -> (was: Option<u64>)
        requires
            old(self).wf(),
        ensures
            final(self).wf(),
            was == old(self)@.userptr,
            final(self)@ == (NcPlaneView { userptr, ..old(self)@ }),
    {
        let was: Option<u64> = self.userptr;
        self.userptr = userptr;
        was
    }

    /// The resize callback.
    pub fn resizecb(&self) -> (cb: Option<NcResizeCb>)
        ensures
            cb == self@.resizecb,
    {
        self.resizecb
    }

    /// Sets or removes the resize callback.
    pub fn set_resizecb(&mut self, resizecb: Option<NcResizeCb>)
        requires
            old(self).wf(),
        ensures
            final(self).wf(),
            final(self)@ == (NcPlaneView { resizecb, ..old(self)@ }),
    {
        self.resizecb = resizecb;
    }

    /// The name: empty for a plane without one.
    pub fn name(&self) -> (n: String)
        ensures
            n@ == match self@.name {
                Some(name) => name,
                None => Seq::empty(),
            },
    {
        match &self.name {
            Some(name) => name.clone(),
            None => String::new(),
        }
    }
}

} // verus!
