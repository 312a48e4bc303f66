//! The listening sockets: the address they are bound to, the steps that set them up, and the
//! errors of these steps.

use vstd::prelude::*;

use crate::text;
use crate::text::{chars_of, push_decimal};

verus! {

/// How many connections may wait to be accepted.
pub const BACKLOG: i32 = 1024;

/// Whether a host is an IPv6 address that still lacks its brackets: only IPv6 addresses hold
/// colons.
pub open spec fn needs_brackets(host: Seq<char>) -> bool {
    host.contains(':') && host[0] != '['
}

/// The address to listen on as text: the host, a colon and the port, where an IPv6 host stands in
/// brackets. Without a host it is the unspecified IPv6 address.
pub open spec fn address_text(host: Option<Seq<char>>, port: u16) -> Seq<char> {
    match host {
        Some(h) => if needs_brackets(h) {
            "["@ + h + "]:"@ + text::decimal(port as nat)
        } else {
            h + ":"@ + text::decimal(port as nat)
        },
        None => "[::]:"@ + text::decimal(port as nat),
    }
}

/// Whether a host is an IPv6 address that still lacks its brackets.
fn lacks_brackets(host: &str) -> (r: bool)
    ensures
        r == needs_brackets(host@),
{
    let cs = chars_of(host);
    let mut i: usize = 0;
    while i < cs.len()
        invariant
            i <= cs@.len(),
            cs@ == host@,
            forall|j: int| 0 <= j < i ==> cs@[j] != ':',
        decreases cs@.len() - i,
    {
        if cs[i] == ':' {
            assert(cs@.contains(':'));
            return cs[0] != '[';
        }
        i += 1;
    }
    false
}

/// The address to listen on as text.
pub fn listen_address(host: &Option<String>, port: u16) -> (r: String)
    ensures
        r@ == address_text(host.deep_view(), port),
{
    match host {
        Some(h) => {
            if lacks_brackets(h.as_str()) {
                let mut s = "[".to_owned();
                s.append(h.as_str());
                s.append("]:");
                push_decimal(&mut s, port as u64);
                s
            } else {
                let mut s = h.clone();
                s.append(":");
                push_decimal(&mut s, port as u64);
                s
            }
        },
        None => {
            let mut s = "[::]:".to_owned();
            push_decimal(&mut s, port as u64);
            s
        },
    }
}

/// A host in brackets and the same host without them give the same address to listen on.
pub proof fn law_brackets_do_not_matter(host: Seq<char>, port: u16)
    requires
        needs_brackets(host),
    ensures
        address_text(Some(host), port) == address_text(Some("["@ + host + "]"@), port),
{
    reveal_strlit("[");
    reveal_strlit("]");
    reveal_strlit(":");
    reveal_strlit("]:");
    let bare = "["@ + host + "]"@;
    assert(bare[0] == '[');
    assert("]:"@ =~= "]"@ + ":"@);
    assert(address_text(Some(host), port) =~= address_text(Some(bare), port));
}

/// The kind of a socket.
#[derive(Clone, Copy, Debug, PartialEq, Eq, Structural)]
pub enum SocketKind {
    Stream,
    Datagram,
}

/// A step of setting up a listening socket.
#[derive(Clone, Copy, Debug, PartialEq, Eq, Structural)]
pub enum SocketStep {
    /// Make the socket.
    New { ipv4: bool, kind: SocketKind },
    /// Let an IPv6 socket take IPv4 traffic too.
    AcceptBoth,
    /// Let the address be used again at once.
    ReuseAddress,
    /// Make calls on the socket return at once.
    NonBlocking,
    /// Bind the socket to its address.
    Bind,
    /// Accept connections.
    Listen { backlog: i32 },
}

/// The steps up to and with binding: an IPv6 socket takes IPv4 traffic too.
pub open spec fn bound_steps(ipv4: bool, kind: SocketKind) -> Seq<SocketStep> {
    seq![SocketStep::New { ipv4, kind }] + (if ipv4 {
        Seq::empty()
    } else {
        seq![SocketStep::AcceptBoth]
    }) + seq![SocketStep::ReuseAddress, SocketStep::NonBlocking, SocketStep::Bind]
}

/// The steps that set up a listening socket: a stream socket is bound and listens, a datagram
/// socket is bound.
pub open spec fn steps_of(ipv4: bool, kind: SocketKind) -> Seq<SocketStep> {
    match kind {
        SocketKind::Stream => bound_steps(ipv4, kind).push(SocketStep::Listen { backlog: BACKLOG }),
        SocketKind::Datagram => bound_steps(ipv4, kind),
    }
}

/// The steps that set up a listening socket, in order. `ipv4` says whether its address is an IPv4
/// address.
pub fn socket_steps(ipv4: bool, kind: SocketKind) -> (r: Vec<SocketStep>)
    ensures
        r@ == steps_of(ipv4, kind),
{
    let mut steps: Vec<SocketStep> = Vec::new();
    steps.push(SocketStep::New { ipv4, kind });
    if !ipv4 {
        steps.push(SocketStep::AcceptBoth);
    }
    steps.push(SocketStep::ReuseAddress);
    steps.push(SocketStep::NonBlocking);
    steps.push(SocketStep::Bind);
    assert(steps@ =~= bound_steps(ipv4, kind));
    match kind {
        SocketKind::Stream => {
            steps.push(SocketStep::Listen { backlog: BACKLOG });
        },
        SocketKind::Datagram => {},
    }
    steps
}

/// The steps that set up a TCP listener.
pub fn create_tcp(ipv4: bool) -> (r: Vec<SocketStep>)
    ensures
        r@ == steps_of(ipv4, SocketKind::Stream),
{
    socket_steps(ipv4, SocketKind::Stream)
}

/// The steps that set up a UDP socket.
pub fn create_udp(ipv4: bool) -> (r: Vec<SocketStep>)
    ensures
        r@ == steps_of(ipv4, SocketKind::Datagram),
{
    socket_steps(ipv4, SocketKind::Datagram)
}

/// A TCP listener is set up as a UDP socket is, but for its kind and for the listening at the
/// end; and a socket takes traffic of both IP versions exactly if its address is not IPv4.
pub proof fn law_listeners_are_set_up_alike(ipv4: bool)
    ensures
        steps_of(ipv4, SocketKind::Stream).skip(1) == steps_of(ipv4, SocketKind::Datagram).skip(
            1,
        ).push(SocketStep::Listen { backlog: BACKLOG }),
        steps_of(ipv4, SocketKind::Stream).first() == (SocketStep::New {
            ipv4,
            kind: SocketKind::Stream,
        }),
        steps_of(ipv4, SocketKind::Datagram).first() == (SocketStep::New {
            ipv4,
            kind: SocketKind::Datagram,
        }),
        steps_of(ipv4, SocketKind::Datagram).contains(SocketStep::AcceptBoth) <==> !ipv4,
{
    let udp = steps_of(ipv4, SocketKind::Datagram);
    let tcp = steps_of(ipv4, SocketKind::Stream);
    assert(tcp.skip(1) =~= udp.skip(1).push(SocketStep::Listen { backlog: BACKLOG }));
    if !ipv4 {
        assert(udp[1] == SocketStep::AcceptBoth);
    }
}

/// What is said of a failed step, given the address and the error as text.
pub open spec fn context_text(step: SocketStep, address: Seq<char>, error: Seq<char>) -> Seq<char> {
    match step {
        SocketStep::New { kind: SocketKind::Stream, .. } => "new STREAM "@ + error,
        SocketStep::New { kind: SocketKind::Datagram, .. } => "new DGRAM "@ + error,
        SocketStep::AcceptBoth => "set_only_v6 "@ + error,
        SocketStep::ReuseAddress => "set_reuse_address "@ + error,
        SocketStep::NonBlocking => "set_nonblocking "@ + error,
        SocketStep::Bind => "bind "@ + address + ","@ + error,
        SocketStep::Listen { .. } => "listen "@ + address + ","@ + error,
    }
}

/// What is said of a failed step.
pub fn step_context(step: SocketStep, address: &str, error: &str) -> (r: String)
    ensures
        r@ == context_text(step, address@, error@),
{
    let mut s = match step {
        SocketStep::New { kind: SocketKind::Stream, .. } => "new STREAM ".to_owned(),
        SocketStep::New { kind: SocketKind::Datagram, .. } => "new DGRAM ".to_owned(),
        SocketStep::AcceptBoth => "set_only_v6 ".to_owned(),
        SocketStep::ReuseAddress => "set_reuse_address ".to_owned(),
        SocketStep::NonBlocking => "set_nonblocking ".to_owned(),
        SocketStep::Bind => {
            let mut b = "bind ".to_owned();
            b.append(address);
            b.append(",");
            b
        },
        SocketStep::Listen { .. } => {
            let mut l = "listen ".to_owned();
            l.append(address);
            l.append(",");
            l
        },
    };
    s.append(error);
    s
}

/// A failed I/O call: the kind of its error, and the error as a programmer reads it.
#[derive(Debug)]
pub struct IoFailure<K> {
    pub kind: K,
    pub debug: String,
}

/// An I/O error with a message.
#[derive(Debug)]
pub struct IoError<K> {
    pub kind: K,
    pub message: String,
}

/// Puts what `f` says of a failed call in front of its error. The kind of the error stays; a
/// success stays as it is.
pub fn io_convert<T, K, F: FnOnce(&IoFailure<K>) -> String>(
    rs: Result<T, IoFailure<K>>,
    f: F,
) -> (r: Result<T, IoError<K>>)
    requires
        rs matches Err(e) ==> f.requires((&e,)),
    ensures
        rs matches Ok(v) ==> r == Ok::<T, IoError<K>>(v),
        rs matches Err(e) ==> {
            &&& r matches Err(out)
            &&& out.kind == e.kind
            &&& exists|context: String|
                f.ensures((&e,), context) && out.message@ == #[trigger] context@
                    + ",internal error:"@ + e.debug@
        },
{
    match rs {
        Ok(v) => Ok(v),
        Err(e) => {
            let context = f(&e);
            let mut message = context.clone();
            message.append(",internal error:");
            message.append(e.debug.as_str());
            assert(message@ == context@ + ",internal error:"@ + e.debug@);
            Err(IoError { kind: e.kind, message })
        },
    }
}

/// What is said in the end of a step that failed.
pub open spec fn failure_text(step: SocketStep, address: Seq<char>, error: Seq<char>) -> Seq<char> {
    context_text(step, address, error) + ",internal error:"@ + error
}

/// The step to take after the one at `done` came out well, if there is one left.
pub open spec fn next_step(steps: Seq<SocketStep>, done: int) -> Option<SocketStep> {
    if done + 1 < steps.len() {
        Some(steps[done + 1])
    } else {
        None
    }
}

/// Goes on after the step at `done` came out as `outcome` says: to the next step, or to the end of
/// the setup, where the step succeeded. A step that failed ends the setup with its error.
pub fn after_step<K>(
    steps: &Vec<SocketStep>,
    done: usize,
    address: &str,
    outcome: Result<(), IoFailure<K>>,
) -> (r: Result<Option<SocketStep>, IoError<K>>)
    requires
        done < steps@.len(),
    ensures
        match outcome {
            Ok(_) => r == Ok::<Option<SocketStep>, IoError<K>>(next_step(steps@, done as int)),
            Err(e) => {
                &&& r matches Err(out)
                &&& out.kind == e.kind
                &&& out.message@ == failure_text(steps@[done as int], address@, e.debug@)
            },
        },
{
    let step = steps[done];
    let told = |e: &IoFailure<K>| -> (context: String)
        ensures
            context@ == context_text(step, address@, e.debug@),
        { step_context(step, address, e.debug.as_str()) };
    match io_convert(outcome, told) {
        Ok(_) => {
            if done < steps.len() - 1 {
                Ok(Some(steps[done + 1]))
            } else {
                Ok(None)
            }
        },
        Err(e) => Err(e),
    }
}

/// The steps that are taken from the one at `done` on, where `succeeds` says how each comes out.
pub open spec fn steps_taken(
    steps: Seq<SocketStep>,
    succeeds: spec_fn(int) -> bool,
    done: int,
) -> Seq<SocketStep>
    decreases steps.len() - done,
{
    if done < 0 || done >= steps.len() {
        Seq::empty()
    } else if succeeds(done) && next_step(steps, done) is Some {
        seq![steps[done]] + steps_taken(steps, succeeds, done + 1)
    } else {
        seq![steps[done]]
    }
}

/// A setup takes its steps in order and stops at the first that fails: none after it is taken.
/// Where no step fails, all are taken.
pub proof fn law_setup_stops_at_first_failure(
    steps: Seq<SocketStep>,
    succeeds: spec_fn(int) -> bool,
    failed: int,
)
    requires
        0 <= failed <= steps.len(),
        forall|i: int| 0 <= i < failed ==> #[trigger] succeeds(i),
        failed < steps.len() ==> !succeeds(failed),
    ensures
        failed < steps.len() ==> steps_taken(steps, succeeds, 0) == steps.take(failed + 1),
        failed == steps.len() ==> steps_taken(steps, succeeds, 0) == steps,
{
    if steps.len() > 0 {
        lemma_steps_taken(steps, succeeds, failed, 0);
        assert(steps.subrange(0, steps.len() as int) =~= steps);
    } else {
        assert(steps =~= Seq::<SocketStep>::empty());
    }
}

/// From any step before the first failure on, the steps up to that failure are taken.
proof fn lemma_steps_taken(
    steps: Seq<SocketStep>,
    succeeds: spec_fn(int) -> bool,
    failed: int,
    done: int,
)
    requires
        0 <= done <= failed <= steps.len(),
        done < steps.len(),
        forall|i: int| 0 <= i < failed ==> #[trigger] succeeds(i),
        failed < steps.len() ==> !succeeds(failed),
    ensures
        steps_taken(steps, succeeds, done) == steps.subrange(
            done,
            if failed < steps.len() {
                failed + 1
            } else {
                failed
            },
        ),
    decreases steps.len() - done,
{
    if done < failed && done + 1 < steps.len() {
        lemma_steps_taken(steps, succeeds, failed, done + 1);
    }
}

/// A TCP listener does not listen where a step before that failed, and no socket is bound where
/// a step before that failed.
pub proof fn law_no_listening_after_a_failure(
    ipv4: bool,
    kind: SocketKind,
    succeeds: spec_fn(int) -> bool,
    failed: int,
)
    requires
        0 <= failed < steps_of(ipv4, kind).len(),
        forall|i: int| 0 <= i < failed ==> #[trigger] succeeds(i),
        !succeeds(failed),
    ensures
        steps_of(ipv4, kind)[failed] !is Listen ==> forall|i: int|
            0 <= i < steps_taken(steps_of(ipv4, kind), succeeds, 0).len() ==> #[trigger] steps_taken(
                steps_of(ipv4, kind),
                succeeds,
                0,
            )[i] !is Listen,
        !(steps_of(ipv4, kind)[failed] is Bind || steps_of(ipv4, kind)[failed] is Listen)
            ==> forall|i: int|
            0 <= i < steps_taken(steps_of(ipv4, kind), succeeds, 0).len() ==> #[trigger] steps_taken(
                steps_of(ipv4, kind),
                succeeds,
                0,
            )[i] !is Bind,
{
    law_setup_stops_at_first_failure(steps_of(ipv4, kind), succeeds, failed);
}

/// The address to listen on ends in a colon and the port, and before that names the host: as it is,
/// or in brackets if it holds a colon and starts with none. Without a host it is `[::]`.
pub proof fn law_address_names_host_and_port(host: Seq<char>, port: u16)
    ensures
        !host.contains(':') ==> address_text(Some(host), port) == host + seq![':'] + text::decimal(
            port as nat,
        ),
        host.contains(':') && host[0] == '[' ==> address_text(Some(host), port) == host + seq![':']
            + text::decimal(port as nat),
        host.contains(':') && host[0] != '[' ==> address_text(Some(host), port) == seq!['[']
            + host + seq![']', ':'] + text::decimal(port as nat),
        address_text(None, port) == seq!['[', ':', ':', ']', ':'] + text::decimal(port as nat),
{
    reveal_strlit("[");
    reveal_strlit(":");
    reveal_strlit("]:");
    reveal_strlit("[::]:");
    assert(":"@ =~= seq![':']);
    assert("["@ =~= seq!['[']);
    assert("]:"@ =~= seq![']', ':']);
    assert("[::]:"@ =~= seq!['[', ':', ':', ']', ':']);
}

/// A listener's steps come in this order: the socket is made, takes traffic of both IP versions if
/// its address is not IPv4, may use its address again at once, does not block, is bound, and, if
/// it is a stream socket, listens for up to 1024 waiting connections. There is no other step.
pub proof fn law_steps_in_order(ipv4: bool, kind: SocketKind)
    ensures
        ({
            let steps = steps_of(ipv4, kind);
            let k: int = if ipv4 {
                1
            } else {
                2
            };
            &&& steps.len() == k + 3 + (if kind is Stream {
                1int
            } else {
                0
            })
            &&& steps[0] == (SocketStep::New { ipv4, kind })
            &&& !ipv4 ==> steps[1] == SocketStep::AcceptBoth
            &&& steps[k] == SocketStep::ReuseAddress
            &&& steps[k + 1] == SocketStep::NonBlocking
            &&& steps[k + 2] == SocketStep::Bind
            &&& kind is Stream ==> steps[k + 3] == (SocketStep::Listen { backlog: 1024 })
        }),
{
}

/// What is said of a failed step names the step and ends in the error; of a step that uses the
/// address it names the address too.
pub proof fn law_failure_is_told(step: SocketStep, address: Seq<char>, error: Seq<char>)
    ensures
        ({
            let told = match step {
                SocketStep::New { kind: SocketKind::Stream, .. } => "new STREAM "@,
                SocketStep::New { kind: SocketKind::Datagram, .. } => "new DGRAM "@,
                SocketStep::AcceptBoth => "set_only_v6 "@,
                SocketStep::ReuseAddress => "set_reuse_address "@,
                SocketStep::NonBlocking => "set_nonblocking "@,
                SocketStep::Bind => "bind "@ + address + ","@,
                SocketStep::Listen { .. } => "listen "@ + address + ","@,
            };
            &&& context_text(step, address, error) == told + error
            &&& failure_text(step, address, error) == told + error + ",internal error:"@ + error
        }),
{
}

/// After each step comes the one behind it in the list, and after the last one nothing: none is
/// left out or taken twice.
pub proof fn law_steps_follow_one_another(steps: Seq<SocketStep>, done: int)
    requires
        0 <= done < steps.len(),
    ensures
        next_step(steps, done) is None <==> done == steps.len() - 1,
        next_step(steps, done) matches Some(step) ==> steps.take(done + 1).push(step)
            == steps.take(done + 2),
{
    if done + 1 < steps.len() {
        assert(steps.take(done + 1).push(steps[done + 1]) =~= steps.take(done + 2));
    }
}

} // verus!
