//! The Handle abstraction: one OS resource, held as its raw descriptor number
//! together with the kind of resource it stands for. A Handle is move-only;
//! descriptor ownership transfers with the value, never aliases.
use vstd::prelude::*;

verus! {

/// The concrete resource a descriptor stands for.
#[derive(Debug, Clone, Copy, PartialEq, Eq, Structural)]
pub enum HandleKind {
    File,
    RawSocket,
    ChannelEndpoint,
}

/// The wire tag of a handle kind.
pub open spec fn kind_tag(k: HandleKind) -> u8 {
    match k {
        HandleKind::File => 0,
        HandleKind::RawSocket => 1,
        HandleKind::ChannelEndpoint => 2,
    }
}

/// The kind a wire tag denotes, if any.
pub open spec fn kind_of_tag(t: u8) -> Option<HandleKind> {
    if t == 0 {
        Some(HandleKind::File)
    } else if t == 1 {
        Some(HandleKind::RawSocket)
    } else if t == 2 {
        Some(HandleKind::ChannelEndpoint)
    } else {
        None
    }
}

/// A kind's tag always denotes that kind again.
pub proof fn lemma_kind_tag_round_trip(k: HandleKind)
    ensures
        kind_of_tag(kind_tag(k)) == Some(k),
{
}

/// Computes the wire tag of a kind.
pub fn tag_of_kind(k: HandleKind) -> (t: u8)
    ensures
        t == kind_tag(k),
{
    match k {
        HandleKind::File => 0,
        HandleKind::RawSocket => 1,
        HandleKind::ChannelEndpoint => 2,
    }
}

/// Reads a kind back from its wire tag.
pub fn kind_from_tag(t: u8) -> (r: Option<HandleKind>)
    ensures
        r == kind_of_tag(t),
{
    if t == 0 {
        Some(HandleKind::File)
    } else if t == 1 {
        Some(HandleKind::RawSocket)
    } else if t == 2 {
        Some(HandleKind::ChannelEndpoint)
    } else {
        None
    }
}

/// The mathematical content of a Handle: its kind and its descriptor number.
pub struct HandleV {
    pub kind: HandleKind,
    pub fd: int,
}

/// One OS resource. Raw-descriptor conversions go through `from_raw` and
/// `into_raw` alone; the value is move-only, so the descriptor it owns is
/// never silently aliased.
#[derive(Debug)]
pub struct Handle {
    kind: HandleKind,
    fd: i32,
}

impl View for Handle {
    type V = HandleV;

    closed spec fn view(&self) -> HandleV {
        HandleV { kind: self.kind, fd: self.fd as int }
    }
}

impl Handle {
    /// Takes exclusive ownership of a raw descriptor, tagged with the kind of
    /// resource it refers to. A descriptor number is never negative.
    pub fn from_raw(fd: i32, kind: HandleKind) -> (h: Handle)
        requires
            fd >= 0,
        ensures
            h@.fd == fd as int,
            h@.kind == kind,
    {
        Handle { kind, fd }
    }

    /// Gives the raw descriptor up, consuming the Handle.
    pub fn into_raw(self) -> (fd: i32)
        ensures
            fd as int == self@.fd,
    {
        self.fd
    }

    /// The kind this Handle was created with.
    pub fn kind(&self) -> (k: HandleKind)
        ensures
            k == self@.kind,
    {
        self.kind
    }

    /// A Handle is well formed when it holds a real descriptor number.
    pub open spec fn wf(&self) -> bool {
        self@.fd >= 0
    }
}

/// The sending half of a typed channel: one channel-endpoint Handle, tagged
/// with the message type it carries. Because a Sender is itself a Handle, it
/// can travel inside any encoded message, which is how a request hands its
/// reply channel to the receiver.
#[derive(Debug)]
pub struct Sender<T> {
    handle: Handle,
    _marker: core::marker::PhantomData<T>,
}

/// The receiving half of a typed channel.
#[derive(Debug)]
pub struct Receiver<T> {
    handle: Handle,
    _marker: core::marker::PhantomData<T>,
}

impl<T> View for Sender<T> {
    type V = HandleV;

    closed spec fn view(&self) -> HandleV {
        self.handle@
    }
}

impl<T> View for Receiver<T> {
    type V = HandleV;

    closed spec fn view(&self) -> HandleV {
        self.handle@
    }
}

impl<T> Sender<T> {
    /// Wraps a channel-endpoint Handle as a typed sending end. Any other kind
    /// of resource is the wrong concrete type for a channel.
    pub fn from_handle(h: Handle) -> (r: Result<Sender<T>, Handle>)
        ensures
            h@.kind == HandleKind::ChannelEndpoint ==> (r is Ok && r->Ok_0@ == h@),
            h@.kind != HandleKind::ChannelEndpoint ==> (r is Err && r->Err_0@ == h@),
    {
        match h.kind() {
            HandleKind::ChannelEndpoint => Ok(Sender { handle: h, _marker: core::marker::PhantomData }),
            _ => Err(h),
        }
    }

    /// Takes exclusive ownership of a raw connected-socket descriptor.
    pub fn from_raw(fd: i32) -> (s: Sender<T>)
        requires
            fd >= 0,
        ensures
            s@.fd == fd as int,
            s@.kind == HandleKind::ChannelEndpoint,
    {
        Sender { handle: Handle::from_raw(fd, HandleKind::ChannelEndpoint), _marker: core::marker::PhantomData }
    }

    /// Turns the sending end back into its underlying Handle.
    pub fn into_handle(self) -> (h: Handle)
        ensures
            h@ == self@,
    {
        self.handle
    }

    /// The raw descriptor this sending end wraps, read without giving it up;
    /// the encoder records it on the side list that carries descriptor
    /// ownership out-of-band.
    pub(crate) fn raw_fd(&self) -> (fd: i32)
        ensures
            fd as int == self@.fd,
    {
        self.handle.fd
    }

    /// A Sender is well formed when it wraps a real channel-endpoint descriptor.
    pub open spec fn wf(&self) -> bool {
        self@.fd >= 0 && self@.kind == HandleKind::ChannelEndpoint
    }
}

impl<T> Receiver<T> {
    /// Wraps a channel-endpoint Handle as a typed receiving end.
    pub fn from_handle(h: Handle) -> (r: Result<Receiver<T>, Handle>)
        ensures
            h@.kind == HandleKind::ChannelEndpoint ==> (r is Ok && r->Ok_0@ == h@),
            h@.kind != HandleKind::ChannelEndpoint ==> (r is Err && r->Err_0@ == h@),
    {
        match h.kind() {
            HandleKind::ChannelEndpoint => Ok(Receiver { handle: h, _marker: core::marker::PhantomData }),
            _ => Err(h),
        }
    }

    /// Takes exclusive ownership of a raw connected-socket descriptor.
    pub fn from_raw(fd: i32) -> (s: Receiver<T>)
        requires
            fd >= 0,
        ensures
            s@.fd == fd as int,
            s@.kind == HandleKind::ChannelEndpoint,
    {
        Receiver { handle: Handle::from_raw(fd, HandleKind::ChannelEndpoint), _marker: core::marker::PhantomData }
    }

    /// Turns the receiving end back into its underlying Handle.
    pub fn into_handle(self) -> (h: Handle)
        ensures
            h@ == self@,
    {
        self.handle
    }

    /// A Receiver is well formed when it wraps a real channel-endpoint descriptor.
    pub open spec fn wf(&self) -> bool {
        self@.fd >= 0 && self@.kind == HandleKind::ChannelEndpoint
    }
}

} // verus!
