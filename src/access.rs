use vstd::prelude::*;

verus! {

/// Who holds a shared/exclusive lock: a number of readers, or one writer,
/// never both.
pub struct AccessState {
    readers: usize,
    writer: bool,
}

/// The holders of a lock as plain values.
pub struct AccessView {
    pub readers: nat,
    pub writer: bool,
}

impl View for AccessState {
    type V = AccessView;

    closed spec fn view(&self) -> AccessView {
        AccessView { readers: self.readers as nat, writer: self.writer }
    }
}

impl AccessView {
    /// Readers and a writer never hold the lock together.
    pub open spec fn wf(self) -> bool {
        &&& self.readers > 0 ==> !self.writer
        &&& self.writer ==> self.readers == 0
    }
}

impl AccessState {
    /// Nobody holds the lock.
    pub fn new() -> (r: AccessState)
        ensures
            r@ == (AccessView { readers: 0, writer: false }),
            r@.wf(),
    {
        AccessState { readers: 0, writer: false }
    }

    /// A reader asks to enter: it may unless a writer holds the lock.
    pub fn try_read(&mut self) -> (r: bool)
        requires
            old(self)@.wf(),
            old(self)@.readers < usize::MAX,
        ensures
            final(self)@.wf(),
            r == !old(self)@.writer,
            r ==> final(self)@ == (AccessView { readers: old(self)@.readers + 1, ..old(self)@ }),
            !r ==> final(self)@ == old(self)@,
    {
        if self.writer {
            false
        } else {
            self.readers += 1;
            true
        }
    }

    /// A reader leaves.
    pub fn end_read(&mut self)
        requires
            old(self)@.wf(),
            old(self)@.readers > 0,
        ensures
            final(self)@.wf(),
            final(self)@ == (AccessView { readers: (old(self)@.readers - 1) as nat, ..old(self)@ }),
    {
        self.readers -= 1;
    }

    /// A writer asks to enter: it may only when nobody holds the lock.
    pub fn try_write(&mut self) -> (r: bool)
        requires
            old(self)@.wf(),
        ensures
            final(self)@.wf(),
            r == (!old(self)@.writer && old(self)@.readers == 0),
            r ==> final(self)@ == (AccessView { readers: 0, writer: true }),
            !r ==> final(self)@ == old(self)@,
    {
        if self.writer || self.readers > 0 {
            false
        } else {
            self.writer = true;
            true
        }
    }

    /// The writer leaves.
    pub fn end_write(&mut self)
        requires
            old(self)@.wf(),
            old(self)@.writer,
        ensures
            final(self)@.wf(),
            final(self)@ == (AccessView { readers: 0, writer: false }),
    {
        self.writer = false;
    }

    pub fn readers(&self) -> (r: usize)
        ensures
            r == self@.readers,
    {
        self.readers
    }

    pub fn has_writer(&self) -> (r: bool)
        ensures
            r == self@.writer,
    {
        self.writer
    }
}

} // verus!
