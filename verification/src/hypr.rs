//! Hyprland IPC: what is sent down the request socket, how its replies are
//! read, where the sockets live, and how the event stream is cut into events.
//!
//! `.socket.sock` takes one request per connection and answers in plain text.
//! `.socket2.sock` streams `event>>payload` lines for as long as it is held
//! open. Connecting, reading and writing are the caller's; this module holds
//! what is decided about the bytes.

use vstd::prelude::*;
use vstd::utf8::{decode_utf8, valid_utf8};

use crate::text::{
    chars_of, newline_split, push_str, string_of, string_of_range, trim, trim_at, trim_end,
    trim_end_at, equals_at, newline_free,
};

verus! {

/// The request that runs the dispatcher `lua`.
pub open spec fn dispatch_request(lua: Seq<char>) -> Seq<char> {
    "dispatch "@ + lua
}

/// The request that runs a dispatcher, spelled as the Lua expression
/// Hyprland 0.55+ wants, for instance `hl.dsp.submap("reset")`.
pub fn dispatch_command(lua: &str) -> (command: String)
    ensures
        command@ == dispatch_request(lua@),
{
    let mut out: Vec<char> = Vec::new();
    push_str(&mut out, "dispatch ");
    push_str(&mut out, lua);
    string_of(&out)
}

/// A dispatcher that Hyprland refused, and what it answered.
pub struct DispatchError {
    /// The dispatcher that was run.
    pub dispatcher: String,
    /// Hyprland's reply, without surrounding whitespace.
    pub reply: String,
}

impl DispatchError {
    /// How the refusal reads: `dispatch <dispatcher>: <reply>`.
    pub fn message(&self) -> (m: String)
        ensures
            m@ == "dispatch "@ + self.dispatcher@ + ": "@ + self.reply@,
    {
        let mut out: Vec<char> = Vec::new();
        push_str(&mut out, "dispatch ");
        push_str(&mut out, self.dispatcher.as_str());
        push_str(&mut out, ": ");
        push_str(&mut out, self.reply.as_str());
        string_of(&out)
    }
}

/// Reads Hyprland's reply to a dispatch. It answers `ok`, or the error it
/// raised; neither is a failure of the socket, so the reply decides.
pub fn check_dispatch_reply(lua: &str, reply: &str) -> (r: Result<(), DispatchError>)
    ensures
        r is Ok <==> trim(reply@) == "ok"@,
        r matches Err(e) ==> e.dispatcher@ == lua@ && e.reply@ == trim(reply@),
{
    let v = chars_of(reply);
    let (a, b) = trim_at(&v, 0, v.len());
    assert(v@.subrange(0, v.len() as int) =~= v@);
    let ok = chars_of("ok");
    if equals_at(&v, a, b, &ok) {
        Ok(())
    } else {
        let mut dispatcher: Vec<char> = Vec::new();
        push_str(&mut dispatcher, lua);
        Err(DispatchError { dispatcher: string_of(&dispatcher), reply: string_of_range(&v, a, b) })
    }
}


/// The bytes of an ASCII text.
pub open spec fn ascii(s: Seq<char>) -> Seq<u8> {
    s.map_values(|c: char| c as u8)
}

fn ascii_bytes(s: &str) -> (b: Vec<u8>)
    ensures
        b@ == ascii(s@),
{
    let mut out: Vec<u8> = Vec::new();
    for c in it: s.chars()
        invariant
            out@ == ascii(it.seq().take(it.index())),
    {
        out.push(c as u8);
        assert(ascii(it.seq().take(it.index() + 1)) =~= ascii(it.seq().take(it.index())).push(
            c as u8,
        ));
    }
    out
}

/// `base` joined with `part` the way `PathBuf::join` does it on Unix: an
/// absolute `part` replaces `base`; otherwise a `/` goes between them unless
/// `base` is empty or already ends in one.
pub open spec fn path_join(base: Seq<u8>, part: Seq<u8>) -> Seq<u8> {
    if part.len() > 0 && part[0] == 47u8 {
        part
    } else if base.len() == 0 || base.last() == 47u8 {
        base + part
    } else {
        base.push(47u8) + part
    }
}

/// `base` joined with `part`, as `PathBuf::join` does it on Unix.
pub fn join_path(base: &Vec<u8>, part: &Vec<u8>) -> (p: Vec<u8>)
    ensures
        p@ == path_join(base@, part@),
{
    let mut out: Vec<u8> = Vec::new();
    if part.len() == 0 || part[0] != 47u8 {
        let mut i: usize = 0;
        while i < base.len()
            invariant
                0 <= i <= base.len(),
                out@ == base@.take(i as int),
            decreases base.len() - i,
        {
            out.push(base[i]);
            assert(out@ =~= base@.take(i + 1));
            i = i + 1;
        }
        assert(base@.take(base.len() as int) =~= base@);
        if base.len() > 0 && base[base.len() - 1] != 47u8 {
            out.push(47u8);
        }
    }
    let ghost head = out@;
    let mut j: usize = 0;
    while j < part.len()
        invariant
            0 <= j <= part.len(),
            out@ == head + part@.take(j as int),
        decreases part.len() - j,
    {
        out.push(part[j]);
        assert(out@ =~= head + part@.take(j + 1));
        j = j + 1;
    }
    assert(part@.take(part.len() as int) =~= part@);
    assert(part.len() > 0 && part@[0] == 47u8 ==> head + part@ =~= part@);
    out
}

/// Where Hyprland may keep its sockets, in the order they are tried:
/// `$XDG_RUNTIME_DIR/hypr/<signature>`, when that variable is set, and then
/// `/tmp/hypr/<signature>`, where Hyprland kept them before version 0.40.
pub open spec fn ipc_dir_candidates(signature: Seq<u8>, runtime_dir: Option<Seq<u8>>) -> Seq<
    Seq<u8>,
> {
    let legacy = path_join(ascii("/tmp/hypr"@), signature);
    match runtime_dir {
        Some(run) => seq![path_join(path_join(run, ascii("hypr"@)), signature), legacy],
        None => seq![legacy],
    }
}

/// The directories in which Hyprland instance `signature` may keep its
/// sockets, in the order they are to be tried; `runtime_dir` is the value of
/// `$XDG_RUNTIME_DIR`, when it is set.
pub fn ipc_dirs(signature: &Vec<u8>, runtime_dir: Option<&Vec<u8>>) -> (dirs: Vec<Vec<u8>>)
    ensures
        dirs@.map_values(|d: Vec<u8>| d@) == ipc_dir_candidates(
            signature@,
            match runtime_dir {
                Some(run) => Some(run@),
                None => None,
            },
        ),
{
    let legacy = join_path(&ascii_bytes("/tmp/hypr"), signature);
    let mut dirs: Vec<Vec<u8>> = Vec::new();
    match runtime_dir {
        Some(run) => {
            let hypr = join_path(run, &ascii_bytes("hypr"));
            dirs.push(join_path(&hypr, signature));
        },
        None => {},
    }
    dirs.push(legacy);
    proof {
        let got = dirs@.map_values(|d: Vec<u8>| d@);
        let want = ipc_dir_candidates(
            signature@,
            match runtime_dir {
                Some(run) => Some(run@),
                None => None,
            },
        );
        assert(got =~= want);
    }
    dirs
}


/// Why no IPC directory was found.
pub enum IpcDirError {
    /// `HYPRLAND_INSTANCE_SIGNATURE` is not set: Hyprland is not running.
    SignatureUnset,
    /// None of the places for instance `signature` is a directory.
    NoDirectory(String),
}

impl IpcDirError {
    /// How the error reads.
    pub fn message(&self) -> (m: String)
        ensures
            match self {
                IpcDirError::SignatureUnset => m@
                    == "HYPRLAND_INSTANCE_SIGNATURE is unset; is Hyprland running?"@,
                IpcDirError::NoDirectory(signature) => m@
                    == "no Hyprland IPC directory for instance "@ + signature@,
            },
    {
        let mut out: Vec<char> = Vec::new();
        match self {
            IpcDirError::SignatureUnset => {
                push_str(&mut out, "HYPRLAND_INSTANCE_SIGNATURE is unset; is Hyprland running?");
            },
            IpcDirError::NoDirectory(signature) => {
                push_str(&mut out, "no Hyprland IPC directory for instance ");
                push_str(&mut out, signature.as_str());
            },
        }
        string_of(&out)
    }
}

/// Picks Hyprland's IPC directory for instance `signature`: the first of
/// `dirs` that `is_dir` says is a directory.
pub fn first_ipc_dir(signature: &str, dirs: &Vec<Vec<u8>>, is_dir: &Vec<bool>) -> (r: Result<
    Vec<u8>,
    IpcDirError,
>)
    requires
        dirs.len() == is_dir.len(),
    ensures
        r is Ok <==> exists|k: int| 0 <= k < is_dir.len() && is_dir@[k],
        r matches Ok(d) ==> exists|k: int|
            0 <= k < dirs.len() && is_dir@[k] && d@ == dirs@[k]@ && forall|j: int|
                0 <= j < k ==> !is_dir@[j],
        r matches Err(e) ==> e matches IpcDirError::NoDirectory(s) && s@ == signature@,
{
    let mut k: usize = 0;
    while k < dirs.len()
        invariant
            dirs.len() == is_dir.len(),
            0 <= k <= dirs.len(),
            forall|j: int| 0 <= j < k ==> !is_dir@[j],
        decreases dirs.len() - k,
    {
        if is_dir[k] {
            return Ok(dirs[k].clone());
        }
        k = k + 1;
    }
    let mut sig: Vec<char> = Vec::new();
    push_str(&mut sig, signature);
    Err(IpcDirError::NoDirectory(string_of(&sig)))
}

/// The request socket in IPC directory `dir`.
pub fn request_socket(dir: &Vec<u8>) -> (p: Vec<u8>)
    ensures
        p@ == path_join(dir@, ascii(".socket.sock"@)),
{
    join_path(dir, &ascii_bytes(".socket.sock"))
}

/// The event socket in IPC directory `dir`.
pub fn event_socket(dir: &Vec<u8>) -> (p: Vec<u8>)
    ensures
        p@ == path_join(dir@, ascii(".socket2.sock"@)),
{
    join_path(dir, &ascii_bytes(".socket2.sock"))
}


/// Names what `String::from_utf8_lossy` makes of `bytes`: their UTF-8
/// decoding, with each invalid sequence replaced by U+FFFD.
pub uninterp spec fn utf8_lossy(bytes: Seq<u8>) -> Seq<char>;

/// `String::from_utf8_lossy`, made owned. Trusted: its text is
/// `utf8_lossy(bytes)`, a function of the bytes alone, and for valid UTF-8 it
/// is their plain decoding, as std documents. How invalid sequences are
/// replaced is left unsaid.
#[verifier::external_body]
fn decode_lossy(bytes: &Vec<u8>) -> (s: String)
    ensures
        s@ == utf8_lossy(bytes@),
        valid_utf8(bytes@) ==> s@ == decode_utf8(bytes@),
{
    String::from_utf8_lossy(bytes).into_owned()
}

/// The events that whole lines of the stream make: each line without its
/// newline and without trailing whitespace.
pub open spec fn line_events(lines: Seq<Seq<char>>) -> Seq<Seq<char>> {
    lines.map_values(|l: Seq<char>| trim_end(l))
}

/// The texts of a list of strings.
pub open spec fn texts(v: Seq<String>) -> Seq<Seq<char>> {
    v.map_values(|s: String| s@)
}

/// What the event socket has sent of a line that has not ended yet.
///
/// A read can end mid-line, so whole lines are handed on as events and the
/// rest is kept for the next read.
pub struct EventBuffer {
    pending: Vec<char>,
}

impl View for EventBuffer {
    type V = Seq<char>;

    closed spec fn view(&self) -> Seq<char> {
        self.pending@
    }
}

impl EventBuffer {
    /// A buffer that holds nothing yet.
    pub fn new() -> (b: EventBuffer)
        ensures
            b@ == Seq::<char>::empty(),
    {
        EventBuffer { pending: Vec::new() }
    }

    /// Takes in `chunk`, the text of one read, and returns the events of the
    /// lines it completes; whatever follows the last newline is kept.
    pub fn feed(&mut self, chunk: &str) -> (events: Vec<String>)
        ensures
            texts(events@) == line_events(newline_split(old(self)@ + chunk@).0),
            final(self)@ == newline_split(old(self)@ + chunk@).1,
            newline_free(final(self)@),
    {
        let mut all: Vec<char> = Vec::new();
        let mut m: usize = 0;
        while m < self.pending.len()
            invariant
                0 <= m <= self.pending.len(),
                all@ == self.pending@.take(m as int),
            decreases self.pending.len() - m,
        {
            all.push(self.pending[m]);
            assert(all@ =~= self.pending@.take(m + 1));
            m = m + 1;
        }
        assert(self.pending@.take(self.pending.len() as int) =~= self.pending@);
        push_str(&mut all, chunk);
        let mut events: Vec<String> = Vec::new();
        let mut start: usize = 0;
        let mut i: usize = 0;
        while i < all.len()
            invariant
                0 <= start <= i <= all.len(),
                newline_split(all@.take(i as int)).1 == all@.subrange(start as int, i as int),
                texts(events@) == line_events(newline_split(all@.take(i as int)).0),
            decreases all.len() - i,
        {
            let ghost before = newline_split(all@.take(i as int));
            assert(all@.take(i + 1).drop_last() =~= all@.take(i as int));
            if all[i] == '\n' {
                let end = trim_end_at(&all, start, i);
                let ghost old_events = events@;
                events.push(string_of_range(&all, start, end));
                assert(texts(events@) =~= texts(old_events).push(trim_end(before.1)));
                assert(line_events(before.0.push(before.1)) =~= line_events(before.0).push(
                    trim_end(before.1),
                ));
                start = i + 1;
            } else {
                assert(all@.subrange(start as int, i + 1) =~= before.1.push(all@[i as int]));
            }
            i = i + 1;
        }
        assert(all@.take(all.len() as int) =~= all@);
        let mut rest: Vec<char> = Vec::new();
        let mut j = start;
        while j < all.len()
            invariant
                start <= j <= all.len(),
                rest@ == all@.subrange(start as int, j as int),
            decreases all.len() - j,
        {
            rest.push(all[j]);
            assert(rest@ =~= all@.subrange(start as int, j + 1));
            j = j + 1;
        }
        self.pending = rest;
        proof {
            crate::text::lemma_newline_split_pieces(all@);
        }
        events
    }

    /// Reacts to one attempt to read the event socket: the events to hand
    /// on, and whether to keep watching.
    ///
    /// Zero bytes mean that Hyprland has gone, so the watch is dropped rather
    /// than spinning on a dead socket; a read that would block is a spurious
    /// wakeup and changes nothing; any other failure drops the watch.
    pub fn on_receive(&mut self, received: Received) -> (step: WatchStep)
        ensures
            match received {
                Received::Data(bytes) => if bytes.len() == 0 {
                    &&& !step.keep_watching
                    &&& step.events.len() == 0
                    &&& final(self)@ == old(self)@
                } else {
                    &&& step.keep_watching
                    &&& texts(step.events@) == line_events(
                        newline_split(old(self)@ + utf8_lossy(bytes@)).0,
                    )
                    &&& final(self)@ == newline_split(old(self)@ + utf8_lossy(bytes@)).1
                },
                Received::WouldBlock => {
                    &&& step.keep_watching
                    &&& step.events.len() == 0
                    &&& final(self)@ == old(self)@
                },
                Received::Failed => {
                    &&& !step.keep_watching
                    &&& step.events.len() == 0
                    &&& final(self)@ == old(self)@
                },
            },
            newline_free(old(self)@) ==> newline_free(final(self)@),
    {
        match received {
            Received::Data(bytes) => {
                if bytes.len() == 0 {
                    WatchStep { events: Vec::new(), keep_watching: false }
                } else {
                    let text = decode_lossy(&bytes);
                    let events = self.feed(text.as_str());
                    WatchStep { events, keep_watching: true }
                }
            },
            Received::WouldBlock => WatchStep { events: Vec::new(), keep_watching: true },
            Received::Failed => WatchStep { events: Vec::new(), keep_watching: false },
        }
    }
}

/// The outcome of one read of the event socket.
pub enum Received {
    /// The bytes read; none at all means the other end has closed.
    Data(Vec<u8>),
    /// Nothing to read after all.
    WouldBlock,
    /// The read failed.
    Failed,
}

/// What to do after a read of the event socket.
pub struct WatchStep {
    /// The events to hand on, in order.
    pub events: Vec<String>,
    /// Whether to keep watching the socket.
    pub keep_watching: bool,
}


/// How the event stream is cut does not matter: feeding `a` and then `b`
/// hands on the events that feeding `a + b` at once does, in the same order,
/// and keeps the same unfinished line.
pub proof fn law_feed_is_chunking_independent(pending: Seq<char>, a: Seq<char>, b: Seq<char>)
    ensures
        line_events(newline_split(pending + a).0) + line_events(
            newline_split(newline_split(pending + a).1 + b).0,
        ) == line_events(newline_split(pending + (a + b)).0),
        newline_split(newline_split(pending + a).1 + b).1 == newline_split(pending + (a + b)).1,
{
    crate::text::law_newline_split_concat(pending + a, b);
    assert(pending + (a + b) =~= (pending + a) + b);
    let x = newline_split(pending + a).0;
    let y = newline_split(newline_split(pending + a).1 + b).0;
    assert(line_events(x) + line_events(y) =~= line_events(x + y));
}

/// What a doorbell watcher does after a read of the event socket.
pub struct Doorbell {
    /// Whether something happened, so that the caller re-queries.
    pub ring: bool,
    /// Whether to keep watching the socket.
    pub keep_watching: bool,
}

/// Reacts to a read of the event socket for a watcher that treats any event
/// as a doorbell and never parses it.
pub fn doorbell(received: &Received) -> (d: Doorbell)
    ensures
        match received {
            Received::Data(bytes) => d.ring == (bytes.len() > 0) && d.keep_watching == (bytes.len()
                > 0),
            Received::WouldBlock => !d.ring && d.keep_watching,
            Received::Failed => !d.ring && !d.keep_watching,
        },
{
    match received {
        Received::Data(bytes) => {
            let any = bytes.len() > 0;
            Doorbell { ring: any, keep_watching: any }
        },
        Received::WouldBlock => Doorbell { ring: false, keep_watching: true },
        Received::Failed => Doorbell { ring: false, keep_watching: false },
    }
}


/// What feeding hands on is the text's whole lines: the lines, each followed
/// by its newline, and then the kept remainder, give back exactly the text
/// fed; no line and no remainder holds a newline; and each event is its whole
/// line with only the trailing whitespace taken off — a prefix of the line,
/// followed in it by whitespace alone, and not itself ending in whitespace.
pub proof fn law_feed_hands_on_whole_lines(pending: Seq<char>, chunk: Seq<char>)
    ensures
        ({
            let (done, rest) = newline_split(pending + chunk);
            let events = line_events(done);
            &&& crate::text::join_lines(done) + rest == pending + chunk
            &&& newline_free(rest)
            &&& forall|k: int| 0 <= k < done.len() ==> newline_free(#[trigger] done[k])
            &&& events.len() == done.len()
            &&& forall|k: int|
                0 <= k < done.len() ==> {
                    &&& (#[trigger] events[k]).len() <= done[k].len()
                    &&& done[k].take(events[k].len() as int) == events[k]
                    &&& forall|i: int|
                        events[k].len() <= i < done[k].len() ==> crate::text::is_space(
                            #[trigger] done[k][i],
                        )
                    &&& events[k].len() == 0 || !crate::text::is_space(events[k].last())
                }
        }),
{
    let s = pending + chunk;
    crate::text::law_newline_split_rebuilds(s);
    crate::text::lemma_newline_split_pieces(s);
    let (done, rest) = newline_split(s);
    assert forall|k: int| 0 <= k < done.len() implies {
        let e = #[trigger] line_events(done)[k];
        &&& e.len() <= done[k].len()
        &&& done[k].take(e.len() as int) == e
        &&& forall|i: int|
            e.len() <= i < done[k].len() ==> crate::text::is_space(#[trigger] done[k][i])
        &&& e.len() == 0 || !crate::text::is_space(e.last())
    } by {
        crate::text::law_trim_end_cuts_only_trailing_space(done[k]);
    }
}

} // verus!
