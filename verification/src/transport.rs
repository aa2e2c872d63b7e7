//! The transport provider: non-blocking TCP primitives over a hardware
//! offload chip. The trait's ghost model is a log of the actions issued
//! (open, listen, close, send), against which all dispatcher contracts are
//! stated. An in-memory provider is given for driving the server without
//! hardware.
use crate::errors::TransportError;
use vstd::prelude::*;

verus! {

/// The per-socket TCP status reported by the chip.
#[derive(Clone, Copy, PartialEq, Eq, Structural, Debug)]
pub enum TransportStatus {
    Closed,
    CloseWait,
    Init,
    Listen,
    Established,
    /// Any status the server does not act on.
    Other,
}

/// One action issued to the transport, as recorded in the ghost log.
pub enum TAction {
    Open { sock: u8 },
    Listen { sock: u8, port: u16 },
    Close { sock: u8 },
    /// One send call; `data` holds only the bytes the chip accepted.
    Send { sock: u8, data: Seq<u8> },
}

/// The socket an action concerns.
pub open spec fn action_sock(a: TAction) -> u8 {
    match a {
        TAction::Open { sock } => sock,
        TAction::Listen { sock, port } => sock,
        TAction::Close { sock } => sock,
        TAction::Send { sock, data } => sock,
    }
}

/// The bytes an action carries (empty unless it is a send).
pub open spec fn action_bytes(a: TAction) -> Seq<u8> {
    match a {
        TAction::Send { sock, data } => data,
        _ => Seq::empty(),
    }
}

/// Every action in `run` concerns socket `sock`.
pub open spec fn all_for(run: Seq<TAction>, sock: u8) -> bool {
    forall|i: int| 0 <= i < run.len() ==> action_sock(#[trigger] run[i]) == sock
}

/// Every action in `run` concerns a socket below `bound`.
pub open spec fn socks_below(run: Seq<TAction>, bound: int) -> bool {
    forall|i: int| 0 <= i < run.len() ==> action_sock(#[trigger] run[i]) < bound
}

/// The bytes carried by a run of actions, in order.
pub open spec fn run_bytes(run: Seq<TAction>) -> Seq<u8>
    decreases run.len(),
{
    if run.len() == 0 {
        Seq::empty()
    } else {
        action_bytes(run[0]) + run_bytes(run.drop_first())
    }
}

/// `run` is a sequence of send calls, all to `sock`, whose accepted bytes
/// concatenate to exactly `data`.
pub open spec fn is_send_run(run: Seq<TAction>, sock: u8, data: Seq<u8>) -> bool {
    &&& all_for(run, sock)
    &&& (forall|i: int| 0 <= i < run.len() ==> (#[trigger] run[i]) matches TAction::Send { .. })
    &&& run_bytes(run) == data
}

pub proof fn lemma_run_bytes_push(run: Seq<TAction>, a: TAction)
    ensures
        run_bytes(run.push(a)) == run_bytes(run) + action_bytes(a),
    decreases run.len(),
{
    if run.len() == 0 {
        assert(run.push(a)[0] == a);
        assert(run.push(a).drop_first() =~= Seq::<TAction>::empty());
        assert(run_bytes(run.push(a)) == action_bytes(a) + run_bytes(Seq::<TAction>::empty()));
        assert(run_bytes(run.push(a)) =~= action_bytes(a));
        assert(run_bytes(run) + action_bytes(a) =~= action_bytes(a));
    } else {
        assert(run.push(a).drop_first() =~= run.drop_first().push(a));
        lemma_run_bytes_push(run.drop_first(), a);
        assert(run_bytes(run.push(a)) =~= run_bytes(run) + action_bytes(a));
    }
}

/// The log grew from `pre` to `post` only by actions for `sock`.
pub open spec fn extended_for(pre: Seq<TAction>, post: Seq<TAction>, sock: u8) -> bool {
    exists|run: Seq<TAction>| post == pre + run && all_for(run, sock)
}

/// The log grew from `pre` to `post` only by actions for sockets below `bound`.
pub open spec fn extended_below(pre: Seq<TAction>, post: Seq<TAction>, bound: int) -> bool {
    exists|run: Seq<TAction>| post == pre + run && socks_below(run, bound)
}

pub proof fn lemma_extended_refl(pre: Seq<TAction>, sock: u8)
    ensures
        extended_for(pre, pre, sock),
{
    let run = Seq::<TAction>::empty();
    assert(pre =~= pre + run);
    assert(all_for(run, sock));
}

pub proof fn lemma_extended_push(pre: Seq<TAction>, post: Seq<TAction>, sock: u8, a: TAction)
    requires
        extended_for(pre, post, sock),
        action_sock(a) == sock,
    ensures
        extended_for(pre, post.push(a), sock),
{
    let run = choose|run: Seq<TAction>| post == pre + run && all_for(run, sock);
    let run2 = run.push(a);
    assert(post.push(a) =~= pre + run2);
    assert forall|i: int| 0 <= i < run2.len() implies action_sock(#[trigger] run2[i]) == sock by {
        if i < run.len() {
            assert(action_sock(run[i]) == sock);
        } else {
            assert(run2[i] == a);
        }
    }
}

pub proof fn lemma_extended_for_below(pre: Seq<TAction>, post: Seq<TAction>, sock: u8, bound: int)
    requires
        extended_for(pre, post, sock),
        (sock as int) < bound,
    ensures
        extended_below(pre, post, bound),
{
    let run = choose|run: Seq<TAction>| post == pre + run && all_for(run, sock);
    assert(socks_below(run, bound));
}

pub proof fn lemma_extended_below_refl(pre: Seq<TAction>, bound: int)
    ensures
        extended_below(pre, pre, bound),
{
    let run = Seq::<TAction>::empty();
    assert(pre =~= pre + run);
    assert(socks_below(run, bound));
}

pub proof fn lemma_extended_below_trans(
    pre: Seq<TAction>,
    mid: Seq<TAction>,
    post: Seq<TAction>,
    b1: int,
    b2: int,
)
    requires
        extended_below(pre, mid, b1),
        extended_below(mid, post, b2),
        b1 <= b2,
    ensures
        extended_below(pre, post, b2),
{
    let r1 = choose|run: Seq<TAction>| mid == pre + run && socks_below(run, b1);
    let r2 = choose|run: Seq<TAction>| post == mid + run && socks_below(run, b2);
    let run = r1 + r2;
    assert(post =~= pre + run);
    assert forall|i: int| 0 <= i < run.len() implies action_sock(#[trigger] run[i]) < b2 by {
        if i < r1.len() {
            assert(run[i] == r1[i]);
            assert(action_sock(r1[i]) < b1);
        } else {
            assert(run[i] == r2[i - r1.len()]);
            assert(action_sock(r2[i - r1.len()]) < b2);
        }
    }
}

/// How many send calls a retry loop makes over `len` bytes when each call
/// accepts exactly `cap` bytes (or all that remain, if fewer).
pub open spec fn retry_calls(len: nat, cap: nat) -> nat
    decreases len,
{
    if len == 0 || cap == 0 {
        0
    } else if len <= cap {
        1
    } else {
        1 + retry_calls((len - cap) as nat, cap)
    }
}

/// Non-blocking TCP primitives. `log()` is the ghost record of every action
/// issued so far; `send_cap()` models a provider whose send calls accept a
/// fixed number of bytes per call (`None` when no such bound is promised).
pub trait Transport {
    spec fn log(&self) -> Seq<TAction>;

    spec fn send_cap(&self) -> Option<usize>;

    /// Query the current status of `sock`. `Ok(None)` reports a status value
    /// unknown to the driver.
    fn get_status(&mut self, sock: u8) -> (r: Result<Option<TransportStatus>, TransportError>)
        ensures
            final(self).log() == old(self).log(),
            final(self).send_cap() == old(self).send_cap(),
    ;

    /// Open `sock` as a TCP socket.
    fn open(&mut self, sock: u8) -> (r: Result<(), TransportError>)
        ensures
            r matches Ok(_) ==> final(self).log() == old(self).log().push(
                TAction::Open { sock },
            ),
            r matches Err(_) ==> final(self).log() == old(self).log(),
            final(self).send_cap() == old(self).send_cap(),
    ;

    /// Put `sock` into listen mode on `port`.
    fn listen(&mut self, sock: u8, port: u16) -> (r: Result<(), TransportError>)
        ensures
            r matches Ok(_) ==> final(self).log() == old(self).log().push(
                TAction::Listen { sock, port },
            ),
            r matches Err(_) ==> final(self).log() == old(self).log(),
            final(self).send_cap() == old(self).send_cap(),
    ;

    /// Close the TCP connection on `sock`.
    fn close(&mut self, sock: u8) -> (r: Result<(), TransportError>)
        ensures
            r matches Ok(_) ==> final(self).log() == old(self).log().push(
                TAction::Close { sock },
            ),
            r matches Err(_) ==> final(self).log() == old(self).log(),
            final(self).send_cap() == old(self).send_cap(),
    ;

    /// Send `data[start..end]` on `sock`. The chip may accept fewer bytes
    /// than offered, but at least one when any are offered.
    fn send(&mut self, sock: u8, data: &Vec<u8>, start: usize, end: usize) -> (r: Result<
        usize,
        TransportError,
    >)
        requires
            start <= end <= data@.len(),
        ensures
            r matches Ok(n) ==> start + n <= end && (start < end ==> 1 <= n)
                && final(self).log() == old(self).log().push(
                TAction::Send { sock, data: data@.subrange(start as int, start + n) },
            ),
            r matches Err(_) ==> final(self).log() == old(self).log(),
            final(self).send_cap() == old(self).send_cap(),
            old(self).send_cap() matches Some(c) ==> ((c >= 1 && start < end) ==> (r matches Ok(n)
                && n == if end - start <= c {
                (end - start) as int
            } else {
                c as int
            })),
    ;

    /// Receive whatever bytes are pending on `sock` into the front of `buf`,
    /// returning how many, or `None` when nothing is pending.
    fn try_receive(&mut self, sock: u8, buf: &mut Vec<u8>) -> (r: Result<
        Option<usize>,
        TransportError,
    >)
        ensures
            final(self).log() == old(self).log(),
            final(self).send_cap() == old(self).send_cap(),
            final(buf)@.len() == old(buf)@.len(),
            r matches Ok(Some(n)) ==> n <= final(buf)@.len(),
    ;
}

/// An exec-level record of one transport action, kept by [`FakeTransport`] so
/// that tests can inspect what was issued.
pub enum RecordedAction {
    Open(u8),
    Listen(u8, u16),
    Close(u8),
    Send(u8, Vec<u8>),
}

impl View for RecordedAction {
    type V = TAction;

    open spec fn view(&self) -> TAction {
        match self {
            RecordedAction::Open(sock) => TAction::Open { sock: *sock },
            RecordedAction::Listen(sock, port) => TAction::Listen { sock: *sock, port: *port },
            RecordedAction::Close(sock) => TAction::Close { sock: *sock },
            RecordedAction::Send(sock, data) => TAction::Send { sock: *sock, data: data@ },
        }
    }
}

/// An in-memory transport provider: statuses and pending receive bytes are
/// scripted per socket, sends accept at most `cap` bytes per call, and every
/// action is recorded.
pub struct FakeTransport {
    /// Status reported for each socket; `None` is an unknown status.
    pub statuses: Vec<Option<TransportStatus>>,
    /// Bytes pending on each socket, handed out once.
    pub rx: Vec<Option<Vec<u8>>>,
    /// Bytes accepted per send call (at least one is always accepted).
    pub cap: usize,
    /// When set, every send fails with a transport error.
    pub fail_send: bool,
    /// When set, every status query fails with a transport error.
    pub fail_status: bool,
    /// Every action issued, in order.
    pub recorded: Vec<RecordedAction>,
}

impl FakeTransport {
    /// A provider with `n` sockets, all reporting `status`, accepting `cap`
    /// bytes per send call.
    pub fn new(n: u8, status: TransportStatus, cap: usize) -> (r: FakeTransport)
        requires
            cap >= 1,
        ensures
            r.log() == Seq::<TAction>::empty(),
            r.send_cap() == Some(cap),
            r.statuses@.len() == n as int,
            r.rx@.len() == n as int,
    {
        let mut statuses: Vec<Option<TransportStatus>> = Vec::new();
        let mut rx: Vec<Option<Vec<u8>>> = Vec::new();
        let mut i: u8 = 0;
        while i < n
            invariant
                i <= n,
                statuses@.len() == i as int,
                rx@.len() == i as int,
            decreases n - i,
        {
            statuses.push(Some(status));
            rx.push(None);
            i = i + 1;
        }
        FakeTransport { statuses, rx, cap, fail_send: false, fail_status: false, recorded: Vec::new() }
    }
}

impl Transport for FakeTransport {
    open spec fn log(&self) -> Seq<TAction> {
        self.recorded@.map_values(|a: RecordedAction| a@)
    }

    open spec fn send_cap(&self) -> Option<usize> {
        if self.fail_send || self.cap == 0 {
            None
        } else {
            Some(self.cap)
        }
    }

    fn get_status(&mut self, sock: u8) -> (r: Result<Option<TransportStatus>, TransportError>)
        ensures
            *final(self) == *old(self),
            old(self).fail_status <==> r matches Err(_),
            !old(self).fail_status && (sock as int) < old(self).statuses@.len()
                ==> (r matches Ok(o) && o == old(self).statuses@[sock as int]),
            !old(self).fail_status && (sock as int) >= old(self).statuses@.len()
                ==> (r matches Ok(o) && o is None),
    {
        if self.fail_status {
            Err(TransportError)
        } else if (sock as usize) < self.statuses.len() {
            Ok(self.statuses[sock as usize])
        } else {
            Ok(None)
        }
    }

    fn open(&mut self, sock: u8) -> (r: Result<(), TransportError>) {
        self.recorded.push(RecordedAction::Open(sock));
        assert(self.log() =~= old(self).log().push(TAction::Open { sock }));
        Ok(())
    }

    fn listen(&mut self, sock: u8, port: u16) -> (r: Result<(), TransportError>) {
        self.recorded.push(RecordedAction::Listen(sock, port));
        assert(self.log() =~= old(self).log().push(TAction::Listen { sock, port }));
        Ok(())
    }

    fn close(&mut self, sock: u8) -> (r: Result<(), TransportError>) {
        self.recorded.push(RecordedAction::Close(sock));
        assert(self.log() =~= old(self).log().push(TAction::Close { sock }));
        Ok(())
    }

    fn send(&mut self, sock: u8, data: &Vec<u8>, start: usize, end: usize) -> (r: Result<
        usize,
        TransportError,
    >) {
        if self.fail_send {
            return Err(TransportError);
        }
        let room: usize = if self.cap >= 1 {
            self.cap
        } else {
            1
        };
        let n: usize = if end - start <= room {
            end - start
        } else {
            room
        };
        let mut chunk: Vec<u8> = Vec::new();
        let mut i: usize = start;
        while i < start + n
            invariant
                start <= i <= start + n,
                start + n <= end <= data@.len(),
                chunk@ =~= data@.subrange(start as int, i as int),
            decreases start + n - i,
        {
            chunk.push(data[i]);
            assert(chunk@ =~= data@.subrange(start as int, i + 1));
            i = i + 1;
        }
        self.recorded.push(RecordedAction::Send(sock, chunk));
        assert(self.log() =~= old(self).log().push(
            TAction::Send { sock, data: data@.subrange(start as int, start + n as int) },
        ));
        Ok(n)
    }

    fn try_receive(&mut self, sock: u8, buf: &mut Vec<u8>) -> (r: Result<
        Option<usize>,
        TransportError,
    >)
        ensures
            final(self).statuses == old(self).statuses,
            final(self).cap == old(self).cap,
            final(self).fail_send == old(self).fail_send,
            final(self).fail_status == old(self).fail_status,
            final(self).recorded == old(self).recorded,
            (sock as int) >= old(self).rx@.len() ==> (final(self).rx == old(self).rx
                && final(buf)@ == old(buf)@ && (r matches Ok(o) && o is None)),
            (sock as int) < old(self).rx@.len() ==> final(self).rx@ == old(self).rx@.update(
                sock as int,
                None::<Vec<u8>>,
            ) && match old(self).rx@[sock as int] {
                None => final(buf)@ == old(buf)@ && (r matches Ok(o) && o is None),
                Some(bytes) => {
                    let n = if bytes@.len() <= old(buf)@.len() {
                        bytes@.len() as int
                    } else {
                        old(buf)@.len() as int
                    };
                    final(buf)@ == bytes@.take(n) + old(buf)@.skip(n) && (r matches Ok(o) && o
                        == Some(n as usize))
                },
            },
    {
        if (sock as usize) >= self.rx.len() {
            return Ok(None);
        }
        let pending = self.rx.remove(sock as usize);
        self.rx.insert(sock as usize, None);
        proof {
            assert(self.rx@ =~= old(self).rx@.update(sock as int, None::<Vec<u8>>));
        }
        match pending {
            None => Ok(None),
            Some(bytes) => {
                let n: usize = if bytes.len() <= buf.len() {
                    bytes.len()
                } else {
                    buf.len()
                };
                let mut out: Vec<u8> = Vec::new();
                let mut i: usize = 0;
                while i < n
                    invariant
                        i <= n,
                        n <= bytes@.len(),
                        n <= old(buf)@.len(),
                        buf@ == old(buf)@,
                        out@ =~= bytes@.take(i as int),
                    decreases n - i,
                {
                    out.push(bytes[i]);
                    proof {
                        assert(out@ =~= bytes@.take(i + 1));
                    }
                    i = i + 1;
                }
                while i < buf.len()
                    invariant
                        n <= i <= buf@.len(),
                        n <= bytes@.len(),
                        buf@ == old(buf)@,
                        out@ =~= bytes@.take(n as int) + old(buf)@.subrange(n as int, i as int),
                    decreases buf@.len() - i,
                {
                    let b = buf[i];
                    out.push(b);
                    proof {
                        assert(out@ =~= bytes@.take(n as int) + old(buf)@.subrange(
                            n as int,
                            i + 1,
                        ));
                    }
                    i = i + 1;
                }
                *buf = out;
                proof {
                    assert(buf@ =~= bytes@.take(n as int) + old(buf)@.skip(n as int));
                }
                Ok(Some(n))
            },
        }
    }
}

} // verus!
