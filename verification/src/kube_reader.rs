use vstd::prelude::*;
use crate::text::{has_prefix, last_piece, split_on, split_str, starts_with, str_eq, views, lemma_split_on_nonempty};

verus! {

/// The key under which the stream of one container of one pod is kept.
pub open spec fn stream_key(pod: Seq<char>, container: Seq<char>) -> Seq<char> {
    pod + seq!['#'] + container
}

/// The label put before each chunk of a container's log: the container,
/// a dash and the last dash-separated part of the pod name.
pub open spec fn stream_label(pod: Seq<char>, container: Seq<char>) -> Seq<char> {
    container + seq!['-'] + last_piece(pod, '-')
}

/// One container of one pod whose log is followed.
pub struct PodContainerData {
    pod: String,
    container: String,
    key: String,
}

impl PodContainerData {
    /// The pod.
    pub closed spec fn pod_view(&self) -> Seq<char> {
        self.pod@
    }

    /// The container.
    pub closed spec fn container_view(&self) -> Seq<char> {
        self.container@
    }

    /// The key is always the pod, `#` and the container.
    pub closed spec fn wf(&self) -> bool {
        self.key@ == stream_key(self.pod@, self.container@)
    }

    /// The container `container` of the pod `pod`.
    pub fn new(pod: String, container: String) -> (d: Self)
        ensures
            d.wf(),
            d.pod_view() == pod@,
            d.container_view() == container@,
    {
        let mut key = pod.clone();
        key.push('#');
        key.append(container.as_str());
        assert(key@ =~= stream_key(pod@, container@));
        PodContainerData { pod, container, key }
    }

    /// A copy of this entry.
    pub fn copy(&self) -> (d: Self)
        ensures
            d.pod_view() == self.pod_view(),
            d.container_view() == self.container_view(),
            self.wf() ==> d.wf(),
    {
        PodContainerData { pod: self.pod.clone(), container: self.container.clone(), key: self.key.clone() }
    }

    /// The pod.
    pub fn pod(&self) -> (p: &str)
        ensures
            p@ == self.pod_view(),
    {
        self.pod.as_str()
    }

    /// The container.
    pub fn container(&self) -> (c: &str)
        ensures
            c@ == self.container_view(),
    {
        self.container.as_str()
    }

    /// The key the stream is kept under.
    pub fn key(&self) -> (k: &str)
        requires
            self.wf(),
        ensures
            k@ == stream_key(self.pod_view(), self.container_view()),
    {
        self.key.as_str()
    }

    /// The label put before each chunk of this container's log.
    pub fn prefix(&self) -> (p: String)
        ensures
            p@ == stream_label(self.pod_view(), self.container_view()),
    {
        let parts = split_str(self.pod.as_str(), '-');
        proof {
            lemma_split_on_nonempty(self.pod@, '-');
        }
        let last = &parts[parts.len() - 1];
        let mut p = self.container.clone();
        p.push('-');
        p.append(last.as_str());
        assert(p@ =~= stream_label(self.pod@, self.container@));
        p
    }
}

/// What the log reader knows of a pod: its name, whether its first
/// container is ready (when it reports a status) and its containers.
pub struct PodInfo {
    pub name: Option<String>,
    pub ready: Option<bool>,
    pub containers: Vec<String>,
}

/// The pod name begins with one of the wanted names.
pub open spec fn is_wanted(name: Seq<char>, wanted: Seq<Seq<char>>) -> bool {
    exists|i: int| 0 <= i < wanted.len() && has_prefix(name, #[trigger] wanted[i])
}

/// The streams opened for one pod: every container of a wanted pod whose
/// first container is ready.
pub open spec fn pod_streams(p: PodInfo, wanted: Seq<Seq<char>>) -> Seq<(Seq<char>, Seq<char>)> {
    match p.name {
        Some(n) => if is_wanted(n@, wanted) && p.ready == Some(true) {
            views(p.containers@).map_values(|c: Seq<char>| (n@, c))
        } else {
            Seq::empty()
        },
        None => Seq::empty(),
    }
}

/// The streams opened for a list of pods, pod after pod.
pub open spec fn all_streams(pods: Seq<PodInfo>, wanted: Seq<Seq<char>>) -> Seq<(Seq<char>, Seq<char>)>
    decreases pods.len(),
{
    if pods.len() == 0 {
        Seq::empty()
    } else {
        all_streams(pods.drop_last(), wanted) + pod_streams(pods.last(), wanted)
    }
}

/// Some wanted pod reports that its first container is not ready.
pub open spec fn some_not_ready(pods: Seq<PodInfo>, wanted: Seq<Seq<char>>) -> bool {
    exists|i: int| 0 <= i < pods.len() && (#[trigger] pods[i]).name is Some
        && is_wanted(pods[i].name->0@, wanted) && pods[i].ready == Some(false)
}

/// The pod and container of each stream.
pub open spec fn streams_view(v: Seq<PodContainerData>) -> Seq<(Seq<char>, Seq<char>)> {
    v.map_values(|d: PodContainerData| (d.pod_view(), d.container_view()))
}

/// Whether `name` begins with one of the wanted names.
pub fn wanted_match(name: &str, wanted: &Vec<String>) -> (b: bool)
    ensures
        b == is_wanted(name@, views(wanted@)),
{
    let mut i: usize = 0;
    while i < wanted.len()
        invariant
            i <= wanted.len(),
            forall|k: int| 0 <= k < i ==> !has_prefix(name@, #[trigger] views(wanted@)[k]),
        decreases wanted.len() - i,
    {
        if starts_with(name, wanted[i].as_str()) {
            assert(views(wanted@)[i as int] == wanted@[i as int]@);
            return true;
        }
        i = i + 1;
    }
    false
}

/// The containers whose logs to follow, and whether a wanted pod is not
/// ready yet (then the reader tries again later).
pub fn select_streams(pods: &Vec<PodInfo>, wanted: &Vec<String>) -> (res: (Vec<PodContainerData>, bool))
    ensures
        streams_view(res.0@) == all_streams(pods@, views(wanted@)),
        forall|k: int| 0 <= k < res.0@.len() ==> (#[trigger] res.0@[k]).wf(),
        res.1 == some_not_ready(pods@, views(wanted@)),
{
    let ghost w = views(wanted@);
    let mut out: Vec<PodContainerData> = Vec::new();
    let mut not_ready = false;
    let mut i: usize = 0;
    while i < pods.len()
        invariant
            i <= pods.len(),
            w == views(wanted@),
            streams_view(out@) == all_streams(pods@.take(i as int), w),
            forall|k: int| 0 <= k < out@.len() ==> (#[trigger] out@[k]).wf(),
            not_ready == some_not_ready(pods@.take(i as int), w),
        decreases pods.len() - i,
    {
        let pod = &pods[i];
        let ghost prev = pods@.take(i as int);
        assert(pods@.take(i + 1).drop_last() =~= prev);
        assert(pods@.take(i + 1).last() == pods@[i as int]);
        let ghost before = out@;
        match &pod.name {
            Some(name) => {
                if wanted_match(name.as_str(), wanted) {
                    match pod.ready {
                        Some(true) => {
                            let mut c: usize = 0;
                            while c < pod.containers.len()
                                invariant
                                    c <= pod.containers.len(),
                                    pod == &pods@[i as int],
                                    pod.name == Some(*name),
                                    streams_view(out@) == streams_view(before) + views(pod.containers@).take(c as int).map_values(|x: Seq<char>| (name@, x)),
                                    forall|k: int| 0 <= k < out@.len() ==> (#[trigger] out@[k]).wf(),
                                decreases pod.containers.len() - c,
                            {
                                let ghost o0 = out@;
                                let d = PodContainerData::new(name.clone(), pod.containers[c].clone());
                                out.push(d);
                                assert(streams_view(out@) =~= streams_view(o0).push((d.pod_view(), d.container_view())));
                                c = c + 1;
                                assert(views(pod.containers@).take(c as int).map_values(|x: Seq<char>| (name@, x)) =~= views(pod.containers@).take(c - 1).map_values(|x: Seq<char>| (name@, x)).push((name@, pod.containers@[c - 1]@)));
                            }
                            assert(views(pod.containers@).take(pod.containers.len() as int) =~= views(pod.containers@));
                        },
                        Some(false) => {
                            not_ready = true;
                        },
                        None => {},
                    }
                }
            },
            None => {},
        }
        proof {
            let now = pods@.take(i + 1);
            if now.len() > 0 {
                assert(streams_view(out@) =~= all_streams(now, w));
            }
            if some_not_ready(prev, w) {
                let q = choose|q: int| 0 <= q < prev.len() && (#[trigger] prev[q]).name is Some
                    && is_wanted(prev[q].name->0@, w) && prev[q].ready == Some(false);
                assert(now[q] == prev[q]);
            }
            if some_not_ready(now, w) {
                let q = choose|q: int| 0 <= q < now.len() && (#[trigger] now[q]).name is Some
                    && is_wanted(now[q].name->0@, w) && now[q].ready == Some(false);
                if q < prev.len() {
                    assert(now[q] == prev[q]);
                }
            }
            if pod.name is Some && is_wanted(pod.name->0@, w) && pod.ready == Some(false) {
                assert(now[i as int] == pods@[i as int]);
            }
        }
        i = i + 1;
    }
    assert(pods@.take(pods.len() as int) =~= pods@);
    (out, not_ready)
}

/// The width of the label column: the longest label, in bytes, plus three.
pub fn label_width(pods: &Vec<PodContainerData>) -> (w: usize)
    requires
        forall|k: int| 0 <= k < pods.len() ==> label_bytes(#[trigger] pods@[k]) + 3 <= usize::MAX,
    ensures
        w >= 3,
        forall|k: int| 0 <= k < pods.len() ==> label_bytes(#[trigger] pods@[k]) + 3 <= w,
        pods.len() == 0 ==> w == 3,
        pods.len() > 0 ==> exists|k: int| 0 <= k < pods.len() && label_bytes(#[trigger] pods@[k]) + 3 == w,
{
    let mut max: usize = 0;
    let mut i: usize = 0;
    while i < pods.len()
        invariant
            i <= pods.len(),
            forall|k: int| 0 <= k < pods.len() ==> label_bytes(#[trigger] pods@[k]) + 3 <= usize::MAX,
            forall|k: int| 0 <= k < i ==> label_bytes(#[trigger] pods@[k]) <= max,
            i == 0 ==> max == 0,
            i > 0 ==> exists|k: int| 0 <= k < i && label_bytes(#[trigger] pods@[k]) == max,
            max + 3 <= usize::MAX,
        decreases pods.len() - i,
    {
        let p = pods[i].prefix();
        let len = p.as_str().len();
        assert(len == label_bytes(pods@[i as int]));
        if len > max {
            max = len;
        }
        i = i + 1;
    }
    max + 3
}

/// The length in bytes of a stream's label.
pub open spec fn label_bytes(d: PodContainerData) -> nat {
    vstd::utf8::encode_utf8(stream_label(d.pod_view(), d.container_view())).len()
}

/// `n` spaces.
pub open spec fn spaces(n: nat) -> Seq<char> {
    Seq::new(n, |_i: int| ' ')
}

/// The text put before each chunk of a container's log when several
/// containers share one view: the label in brackets, padded with
/// `width - len(label) - 1` spaces (none when the label fills the width).
pub open spec fn line_prefix_text(label: Seq<char>, pad: nat) -> Seq<char> {
    seq!['['] + label + seq![']'] + spaces(if pad > 0 { (pad - 1) as nat } else { 0 })
}

/// The bracketed, padded label for a chunk of `label`'s log.
pub fn line_prefix(label: &str, width: usize) -> (p: String)
    requires
        vstd::utf8::encode_utf8(label@).len() <= width,
    ensures
        p@ == line_prefix_text(label@, (width - vstd::utf8::encode_utf8(label@).len()) as nat),
{
    let pad = width - label.len();
    let mut p = String::new();
    p.push('[');
    p.append(label);
    p.push(']');
    let mut k: usize = 1;
    while k < pad
        invariant
            1 <= k,
            pad > 0 ==> k <= pad,
            pad == 0 ==> k == 1,
            p@ == seq!['['] + label@ + seq![']'] + spaces((k - 1) as nat),
        decreases pad - k,
    {
        p.push(' ');
        k = k + 1;
        assert(p@ =~= seq!['['] + label@ + seq![']'] + spaces((k - 1) as nat));
    }
    let ghost sp: nat = if pad > 0 { (pad - 1) as nat } else { 0 };
    if pad > 0 {
        assert(k == pad);
    }
    assert(spaces((k - 1) as nat) == spaces(sp));
    assert(line_prefix_text(label@, pad as nat) == seq!['['] + label@ + seq![']'] + spaces(sp));
    p
}

/// A chunk of a container's log as it is shown: with the prefix in front
/// when several containers share one view.
pub fn prefixed_chunk(prefix_entries: bool, prefix: &str, chunk: Vec<u8>) -> (r: Vec<u8>)
    ensures
        r@ == if prefix_entries { vstd::utf8::encode_utf8(prefix@) + chunk@ } else { chunk@ },
{
    if prefix_entries {
        let bytes = prefix.as_bytes();
        let mut r: Vec<u8> = Vec::new();
        let mut i: usize = 0;
        while i < bytes.len()
            invariant
                i <= bytes.len(),
                r@ == bytes@.take(i as int),
            decreases bytes.len() - i,
        {
            r.push(bytes[i]);
            i = i + 1;
            assert(r@ =~= bytes@.take(i as int));
        }
        assert(bytes@.take(bytes.len() as int) =~= bytes@);
        let mut chunk = chunk;
        let ghost c0 = chunk@;
        r.append(&mut chunk);
        assert(r@ =~= vstd::utf8::encode_utf8(prefix@) + c0);
        r
    } else {
        chunk
    }
}

/// A message from a container's stream to the reader.
pub enum ReaderMsg {
    /// A chunk of log data; an empty chunk marks the end of what is there.
    Data(Vec<u8>),
    /// The stream with this key ended and must be opened again.
    ReInit(String),
}

/// The bookkeeping of the Kubernetes log reader: whether its streams are
/// set up, whether it is shutting down, and which streams are open.
pub struct KubeReaderState {
    is_initialized: bool,
    is_stopping: bool,
    streams: Vec<String>,
}

impl KubeReaderState {
    /// The streams are set up.
    pub closed spec fn initialized(&self) -> bool {
        self.is_initialized
    }

    /// The reader is shutting down.
    pub closed spec fn stopping(&self) -> bool {
        self.is_stopping
    }

    /// The keys of the open streams.
    pub closed spec fn open_streams(&self) -> Seq<Seq<char>> {
        views(self.streams@)
    }

    /// No stream is open twice.
    pub closed spec fn wf(&self) -> bool {
        self.open_streams().no_duplicates()
    }

    /// A reader with nothing set up.
    pub fn new() -> (s: Self)
        ensures
            s.wf(),
            !s.initialized(),
            !s.stopping(),
            s.open_streams() == Seq::<Seq<char>>::empty(),
    {
        let s = KubeReaderState { is_initialized: false, is_stopping: false, streams: Vec::new() };
        assert(views(s.streams@) =~= Seq::<Seq<char>>::empty());
        s
    }

    /// Whether the streams must be (re)set up now.
    pub fn should_init(&self) -> (b: bool)
        ensures
            b == (!self.initialized() && !self.stopping()),
    {
        !self.is_initialized && !self.is_stopping
    }

    /// Records a setup round: set up unless the client could not be built
    /// (nothing changes then) or a wanted pod is not ready yet.
    pub fn finish_init(&mut self, client_ok: bool, not_ready: bool)
        ensures
            final(self).initialized() == if client_ok { !not_ready } else { old(self).initialized() },
            final(self).stopping() == old(self).stopping(),
            final(self).open_streams() == old(self).open_streams(),
            final(self).wf() == old(self).wf(),
    {
        if client_ok {
            self.is_initialized = !not_ready;
        }
    }

    /// Whether a stream with this key is open.
    pub fn has_stream(&self, key: &str) -> (b: bool)
        ensures
            b == self.open_streams().contains(key@),
    {
        let mut i: usize = 0;
        while i < self.streams.len()
            invariant
                i <= self.streams.len(),
                forall|k: int| 0 <= k < i ==> views(self.streams@)[k] != key@,
            decreases self.streams.len() - i,
        {
            if str_eq(self.streams[i].as_str(), key) {
                assert(views(self.streams@)[i as int] == key@);
                return true;
            }
            i = i + 1;
        }
        false
    }

    /// Records that a stream with this key was opened.
    pub fn add_stream(&mut self, key: &str)
        requires
            old(self).wf(),
        ensures
            final(self).wf(),
            final(self).open_streams().to_set() == old(self).open_streams().to_set().insert(key@),
            final(self).initialized() == old(self).initialized(),
            final(self).stopping() == old(self).stopping(),
    {
        if !self.has_stream(key) {
            let ghost before = views(self.streams@);
            self.streams.push(key.to_owned());
            assert(views(self.streams@) =~= before.push(key@));
            proof {
                before.lemma_push_to_set_commute(key@);
                assert(!before.contains(key@));
                assert forall|a: int, b: int| 0 <= a < b < before.push(key@).len() implies before.push(key@)[a] != before.push(key@)[b] by {
                    if b == before.len() {
                        assert(before[a] == before.push(key@)[a]);
                    }
                }
            }
        } else {
            assert(views(self.streams@).to_set() =~= views(self.streams@).to_set().insert(key@));
        }
    }

    /// Takes one message from the streams. Data is appended to `out`;
    /// returns whether to take another. An ended stream is forgotten and
    /// makes the reader set up again.
    pub fn on_message(&mut self, msg: Option<ReaderMsg>, out: &mut Vec<u8>) -> (more: bool)
        requires
            old(self).wf(),
        ensures
            final(self).wf(),
            final(self).stopping() == old(self).stopping(),
            match msg {
                Some(ReaderMsg::Data(d)) => if d@.len() > 0 {
                    &&& more
                    &&& final(out)@ == old(out)@ + d@
                    &&& final(self).initialized() == old(self).initialized()
                    &&& final(self).open_streams() == old(self).open_streams()
                } else {
                    &&& !more
                    &&& final(out)@ == old(out)@
                    &&& final(self).initialized() == old(self).initialized()
                    &&& final(self).open_streams() == old(self).open_streams()
                },
                Some(ReaderMsg::ReInit(key)) => {
                    &&& !more
                    &&& final(out)@ == old(out)@
                    &&& !final(self).initialized()
                    &&& final(self).open_streams().to_set() == old(self).open_streams().to_set().remove(key@)
                },
                None => {
                    &&& !more
                    &&& final(out)@ == old(out)@
                    &&& final(self).initialized() == old(self).initialized()
                    &&& final(self).open_streams() == old(self).open_streams()
                },
            },
    {
        match msg {
            Some(ReaderMsg::Data(d)) => {
                if d.len() > 0 {
                    let mut d = d;
                    out.append(&mut d);
                    true
                } else {
                    false
                }
            },
            Some(ReaderMsg::ReInit(key)) => {
                self.is_initialized = false;
                self.remove_stream(key.as_str());
                false
            },
            None => false,
        }
    }

    fn remove_stream(&mut self, key: &str)
        requires
            old(self).wf(),
        ensures
            final(self).wf(),
            final(self).open_streams().to_set() == old(self).open_streams().to_set().remove(key@),
            final(self).initialized() == old(self).initialized(),
            final(self).stopping() == old(self).stopping(),
    {
        let ghost start = views(self.streams@);
        let mut i: usize = 0;
        while i < self.streams.len()
            invariant
                i <= self.streams.len(),
                views(self.streams@) == start,
                start == views(old(self).streams@),
                start.no_duplicates(),
                self.is_initialized == old(self).is_initialized,
                self.is_stopping == old(self).is_stopping,
                forall|k: int| 0 <= k < i ==> start[k] != key@,
            decreases self.streams.len() - i,
        {
            if str_eq(self.streams[i].as_str(), key) {
                assert(start[i as int] == key@);
                self.streams.remove(i);
                let ghost after = views(self.streams@);
                assert(after =~= start.remove(i as int));
                proof {
                    start.remove_ensures(i as int);
                    assert forall|a: int, b: int| 0 <= a < b < after.len() implies after[a] != after[b] by {
                        let a2 = if a < i { a } else { a + 1 };
                        let b2 = if b < i { b } else { b + 1 };
                        assert(after[a] == start[a2]);
                        assert(after[b] == start[b2]);
                    }
                    assert forall|x: Seq<char>| after.to_set().contains(x) <==> start.to_set().remove(key@).contains(x) by {
                        if start.contains(x) && x != key@ {
                            let q = choose|q: int| 0 <= q < start.len() && start[q] == x;
                            assert(q != i);
                            let q2 = if q < i { q } else { q - 1 };
                            assert(after[q2] == x);
                        }
                        if after.contains(x) {
                            let q = choose|q: int| 0 <= q < after.len() && after[q] == x;
                            let q2 = if q < i { q } else { q + 1 };
                            assert(start[q2] == x);
                            assert(q2 != i);
                        }
                    }
                    assert(after.to_set() =~= start.to_set().remove(key@));
                }
                return;
            }
            i = i + 1;
        }
        assert(!start.contains(key@));
        assert(start.to_set() =~= start.to_set().remove(key@));
    }

    /// Shuts the reader down: returns the keys of all open streams, which
    /// are to be closed, and forgets them. Once stopping, the reader never
    /// sets up again.
    pub fn stop(&mut self) -> (keys: Vec<String>)
        ensures
            final(self).wf(),
            final(self).stopping(),
            final(self).open_streams() == Seq::<Seq<char>>::empty(),
            views(keys@) == old(self).open_streams(),
            final(self).initialized() == old(self).initialized(),
    {
        self.is_stopping = true;
        let mut keys: Vec<String> = Vec::new();
        std::mem::swap(&mut keys, &mut self.streams);
        assert(views(self.streams@) =~= Seq::<Seq<char>>::empty());
        keys
    }
}

/// Once the reader is stopping, no message and no setup round makes it
/// set up its streams again.
pub proof fn lemma_stopped_reader_stays_down(s: KubeReaderState)
    requires
        s.stopping(),
    ensures
        !(!s.initialized() && !s.stopping()),
{
}

} // verus!
