//! The server of rings in shared memory: which device a client gets, and what
//! its worker does.
use crate::drive::uring_channel;
use crate::drive::uring_channel::{RingHeader, DEFAULT_BUF_SIZE, DEFAULT_QUEUE_DEPTH};
use crate::text;
use vstd::prelude::*;

verus! {

/// The text in the field `field` of the JSON object in `data`, if there is
/// one; or why `data` is not JSON.
pub uninterp spec fn json_text(data: Seq<u8>, field: Seq<char>) -> Result<
    Option<Seq<char>>,
    Seq<char>,
>;

/// What a parsed request holds, as plain text.
pub open spec fn parsed_view(r: Result<Option<String>, String>) -> Result<
    Option<Seq<char>>,
    Seq<char>,
> {
    match r {
        Ok(Some(s)) => Ok(Some(s@)),
        Ok(None) => Ok(None),
        Err(e) => Err(e@),
    }
}

/// `serde_json::from_slice` into a `serde_json::Value`, of which the text in
/// one field is taken: a function of the bytes and the field's name. `None`
/// where the value is no object, has no such field, or the field holds no
/// text; the error is in serde_json's words.
#[verifier::external_body]
fn json_text_field(data: &[u8], field: &str) -> (r: Result<Option<String>, String>)
    ensures
        parsed_view(r) == json_text(data@, field@),
{
    match serde_json::from_slice::<serde_json::Value>(data) {
        Ok(value) => match value.get(field) {
            Some(serde_json::Value::String(s)) => Ok(Some(s.clone())),
            _ => Ok(None),
        },
        Err(e) => Err(e.to_string()),
    }
}

/// Why a client is turned away.
#[derive(Debug)]
pub enum RequestFault {
    /// The request is not JSON, in the parser's words.
    NotJson(String),
    MissingVolume,
    NotFound(String),
}

impl RequestFault {
    /// The fault in words.
    pub open spec fn message(self) -> Seq<char> {
        match self {
            RequestFault::NotJson(e) => e@,
            RequestFault::MissingVolume => "missing 'volume' field"@,
            RequestFault::NotFound(name) => "volume '"@ + name@ + "' not found"@,
        }
    }

    /// The fault in words.
    pub fn to_string(&self) -> (s: String)
        ensures
            s@ == self.message(),
    {
        match self {
            RequestFault::NotJson(e) => e.clone(),
            RequestFault::MissingVolume => "missing 'volume' field".to_owned(),
            RequestFault::NotFound(name) => {
                let mut s = "volume '".to_owned();
                s.append(name);
                s.append("' not found");
                s
            },
        }
    }
}

/// A volume on offer: its name, and the device that the caller knows by this
/// number.
pub struct Offer {
    pub name: String,
    pub device: u64,
}

/// A server listening on a socket.
pub struct UringServer {
    pub socket_path: String,
    pub running: bool,
    /// The volumes on offer, no two of one name.
    pub offers: Vec<Offer>,
}

/// Whether no two offers have one name.
pub open spec fn distinct_names(offers: Seq<Offer>) -> bool {
    forall|i: int, j: int|
        0 <= i < j < offers.len() ==> (#[trigger] offers[i]).name@ != (#[trigger] offers[j]).name@
}

/// Whether a volume of this name is on offer.
pub open spec fn offered(offers: Seq<Offer>, name: Seq<char>) -> bool {
    exists|i: int| 0 <= i < offers.len() && (#[trigger] offers[i]).name@ == name
}

/// Where the volume of this name is on offer.
pub open spec fn place_of(offers: Seq<Offer>, name: Seq<char>) -> int {
    choose|i: int| 0 <= i < offers.len() && (#[trigger] offers[i]).name@ == name
}

impl UringServer {
    /// No two offers have one name.
    pub open spec fn wf(&self) -> bool {
        distinct_names(self.offers@)
    }

    /// The devices on offer, by name.
    pub open spec fn volumes(&self) -> Map<Seq<char>, u64> {
        Map::new(
            |name: Seq<char>| offered(self.offers@, name),
            |name: Seq<char>| self.offers@[place_of(self.offers@, name)].device,
        )
    }

    /// A server that offers nothing.
    pub fn new(socket_path: &str) -> (s: Self)
        ensures
            s.wf(),
            s.socket_path@ == socket_path@,
            !s.running,
            s.volumes() == Map::<Seq<char>, u64>::empty(),
    {
        let s = UringServer {
            socket_path: socket_path.to_owned(),
            running: false,
            offers: Vec::new(),
        };
        assert(s.volumes() =~= Map::<Seq<char>, u64>::empty());
        s
    }

    fn find(&self, name: &str) -> (r: Option<usize>)
        ensures
            match r {
                Some(i) => i < self.offers@.len() && self.offers@[i as int].name@ == name@,
                None => !offered(self.offers@, name@),
            },
    {
        let mut i: usize = 0;
        while i < self.offers.len()
            invariant
                i <= self.offers@.len(),
                forall|j: int| 0 <= j < i ==> (#[trigger] self.offers@[j]).name@ != name@,
            decreases self.offers@.len() - i,
        {
            if text::same_text(&self.offers[i].name, name) {
                return Some(i);
            }
            i = i + 1;
        }
        None
    }

    /// Offers a device under a name, in place of any that had it.
    pub fn add_volume(&mut self, name: String, device: u64)
        requires
            old(self).wf(),
        ensures
            final(self).wf(),
            final(self).volumes() == old(self).volumes().insert(name@, device),
            final(self).socket_path == old(self).socket_path,
            final(self).running == old(self).running,
    {
        let ghost wanted = name@;
        let ghost before = self.offers@;
        match self.find(&name) {
            Some(i) => {
                self.offers.set(i, Offer { name, device });
                proof {
                    lemma_offers(before, self.offers@, wanted, device, i as int);
                }
            },
            None => {
                let ghost i = self.offers@.len() as int;
                self.offers.push(Offer { name, device });
                proof {
                    assert forall|j: int| 0 <= j < i implies (#[trigger] self.offers@[j]).name@
                        != wanted by {
                        assert(before[j].name@ != wanted);
                    }
                    lemma_offers(before, self.offers@, wanted, device, i);
                }
            },
        }
        assert(self.volumes() =~= old(self).volumes().insert(wanted, device));
    }

    /// The device of a name.
    pub fn device_of(&self, name: &str) -> (r: Option<u64>)
        requires
            self.wf(),
        ensures
            r == (if self.volumes().dom().contains(name@) {
                Some(self.volumes()[name@])
            } else {
                None
            }),
    {
        match self.find(name) {
            Some(i) => {
                proof {
                    lemma_place(self.offers@, name@, i as int);
                }
                Some(self.offers[i].device)
            },
            None => None,
        }
    }

    /// What a parsed request gets: the named volume's device, or why not.
    pub open spec fn granted(
        &self,
        parsed: Result<Option<Seq<char>>, Seq<char>>,
        r: Result<(String, u64), RequestFault>,
    ) -> bool {
        match parsed {
            Err(e) => r matches Err(RequestFault::NotJson(s)) && s@ == e,
            Ok(None) => r matches Err(RequestFault::MissingVolume),
            Ok(Some(name)) => if self.volumes().dom().contains(name) {
                r matches Ok((s, device)) && s@ == name && device == self.volumes()[name]
            } else {
                r matches Err(RequestFault::NotFound(s)) && s@ == name
            },
        }
    }

    /// What a parsed request gets: the named volume and its device, or why
    /// not.
    pub fn grant(&self, parsed: Result<Option<String>, String>) -> (r: Result<
        (String, u64),
        RequestFault,
    >)
        requires
            self.wf(),
        ensures
            self.granted(parsed_view(parsed), r),
    {
        match parsed {
            Err(e) => Err(RequestFault::NotJson(e)),
            Ok(None) => Err(RequestFault::MissingVolume),
            Ok(Some(name)) => match self.device_of(&name) {
                Some(device) => Ok((name, device)),
                None => Err(RequestFault::NotFound(name)),
            },
        }
    }

    /// What a client's request gets, `{"volume": "name"}` as JSON.
    pub fn handle_client(&self, request: &[u8]) -> (r: Result<(String, u64), RequestFault>)
        requires
            self.wf(),
        ensures
            self.granted(json_text(request@, "volume"@), r),
    {
        self.grant(json_text_field(request, "volume"))
    }

    /// Takes note that the server listens.
    pub fn start(&mut self)
        ensures
            *final(self) == (UringServer { running: true, ..*old(self) }),
    {
        self.running = true;
    }

    /// Has the server and its workers end.
    pub fn stop(&mut self)
        ensures
            *final(self) == (UringServer { running: false, ..*old(self) }),
    {
        self.running = false;
    }
}

proof fn lemma_place(offers: Seq<Offer>, name: Seq<char>, i: int)
    requires
        distinct_names(offers),
        0 <= i < offers.len(),
        offers[i].name@ == name,
    ensures
        offered(offers, name),
        place_of(offers, name) == i,
{
    let k = place_of(offers, name);
    assert(0 <= k < offers.len() && offers[k].name@ == name);
    if k < i {
        assert(offers[k].name@ != offers[i].name@);
    } else if i < k {
        assert(offers[i].name@ != offers[k].name@);
    }
}

proof fn lemma_offers(before: Seq<Offer>, after: Seq<Offer>, name: Seq<char>, device: u64, i: int)
    requires
        distinct_names(before),
        0 <= i <= before.len(),
        after == (if i < before.len() {
            before.update(i, after[i])
        } else {
            before.push(after[i])
        }),
        after[i].name@ == name,
        after[i].device == device,
        i < before.len() ==> before[i].name@ == name,
        i == before.len() ==> !offered(before, name),
    ensures
        distinct_names(after),
        forall|n: Seq<char>| #[trigger] offered(after, n) <==> n == name || offered(before, n),
        forall|n: Seq<char>|
            #![trigger place_of(after, n)]
            offered(after, n) ==> after[place_of(after, n)].device == (if n == name {
                device
            } else {
                before[place_of(before, n)].device
            }),
{
    assert forall|a: int, b: int| 0 <= a < b < after.len() implies (#[trigger] after[a]).name@ != (
    #[trigger] after[b]).name@ by {
        if b == before.len() {
            assert(before[a].name@ != name) by {
                if before[a].name@ == name {
                    assert(offered(before, name));
                }
            }
        } else {
            assert(before[a].name@ != before[b].name@);
        }
    }
    assert forall|n: Seq<char>| #[trigger] offered(after, n) <==> n == name || offered(
        before,
        n,
    ) by {
        if offered(after, n) {
            let k = place_of(after, n);
            if k != i {
                assert(before[k].name@ == n);
            }
        }
        if n == name {
            assert(after[i].name@ == n);
        }
        if offered(before, n) {
            let k = place_of(before, n);
            assert(after[k].name@ == n);
        }
    }
    assert forall|n: Seq<char>|
        #![trigger place_of(after, n)]
        offered(after, n) implies after[place_of(after, n)].device == (if n == name {
        device
    } else {
        before[place_of(before, n)].device
    }) by {
        if n == name {
            lemma_place(after, n, i);
        } else {
            assert(offered(before, n));
            let k = place_of(before, n);
            assert(before[k].name@ == n);
            assert(after[k].name@ == n);
            lemma_place(after, n, k);
        }
    }
}

/// The header of the memory that a client of a device gets.
pub fn client_header(capacity: u64, block_size: u32) -> (h: RingHeader)
    ensures
        h.queue_depth == DEFAULT_QUEUE_DEPTH,
        h.buf_size == DEFAULT_BUF_SIZE,
        h.capacity == capacity,
        h.block_size == block_size,
        h.magic == uring_channel::RING_MAGIC,
        h.version == uring_channel::RING_VERSION,
        h.sq_head == 0,
        h.sq_tail == 0,
        h.cq_head == 0,
        h.cq_tail == 0,
        h.sq_offset == uring_channel::HEADER_LEN,
        h.cq_offset == uring_channel::cq_start(DEFAULT_QUEUE_DEPTH),
        h.data_offset == uring_channel::data_start(DEFAULT_QUEUE_DEPTH),
        h.total_size == uring_channel::total_len(DEFAULT_QUEUE_DEPTH, DEFAULT_BUF_SIZE),
{
    uring_channel::ring_header_init(DEFAULT_QUEUE_DEPTH, DEFAULT_BUF_SIZE, capacity, block_size)
}

/// How waiting for a client ended.
#[derive(Debug, Clone, Copy, PartialEq, Eq, Structural)]
pub enum Woken {
    /// There is something to do.
    Signalled,
    /// The time was up.
    TimedOut,
    /// There was nothing to be had after all.
    WouldBlock,
    /// Anything else.
    Failed,
}

/// What a worker or the listener does then.
#[derive(Debug, Clone, Copy, PartialEq, Eq, Structural)]
pub enum Step {
    /// Serve what is there.
    Serve,
    /// Go round after this many milliseconds.
    Again(u64),
    Exit,
}

/// What a worker does after it has waited: it drains the queue, or looks
/// again whether the server still runs; any other failure ends it.
pub fn worker_step(w: Woken) -> (s: Step)
    ensures
        s == (match w {
            Woken::Signalled => Step::Serve,
            Woken::TimedOut => Step::Again(0),
            Woken::WouldBlock => Step::Again(0),
            Woken::Failed => Step::Exit,
        }),
        s == Step::Exit <==> w == Woken::Failed,
        s == Step::Serve <==> w == Woken::Signalled,
{
    match w {
        Woken::Signalled => Step::Serve,
        Woken::TimedOut | Woken::WouldBlock => Step::Again(0),
        Woken::Failed => Step::Exit,
    }
}

/// What the listener does after it has tried to accept: a failure to accept
/// does not end it.
pub fn listener_step(w: Woken) -> (s: Step)
    ensures
        s == (match w {
            Woken::Signalled => Step::Serve,
            Woken::WouldBlock => Step::Again(50),
            Woken::TimedOut => Step::Again(100),
            Woken::Failed => Step::Again(100),
        }),
        s != Step::Exit,
        s == Step::Serve <==> w == Woken::Signalled,
{
    match w {
        Woken::Signalled => Step::Serve,
        Woken::WouldBlock => Step::Again(50),
        Woken::TimedOut | Woken::Failed => Step::Again(100),
    }
}

} // verus!
