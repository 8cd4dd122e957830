//! Transports that carry publications to ROS 2, or nowhere: the transport
//! interface, the transport that drops everything, the one that writes
//! rosbridge JSON lines to a stream, and the address check of the rosbridge
//! websocket client.

use vstd::prelude::*;
use vstd::string::{StringExecFns, StrSliceExecFns};
use crate::convert::Publication;
use vstd::arithmetic::div_mod::lemma_fundamental_div_mod_converse;
use crate::json::{op_json_line, op_line, publish_json_line, publish_op_line, json_value_text, newline_free, lemma_op_line_newline_free, lemma_publish_line_newline_free, json_parse, json_member, json_str, parse_json, member, as_str};

verus! {

/// Transport errors.
#[derive(Debug)]
pub enum TransportError {
    /// I/O failure.
    Io(std::io::Error),
    /// Websocket failure.
    Ws(String),
    /// JSON (de)serialization failure.
    Json(serde_json::Error),
}

/// A request made of a transport.
pub enum TransportCall {
    /// `advertise(topic, msg_type)`.
    Advertise(Seq<char>, Seq<char>),
    /// `publish` of a message of type `msg_type` on `topic`.
    Publish(Seq<char>, Seq<char>),
}

/// Number of publish requests among `calls`.
pub open spec fn publish_count(calls: Seq<TransportCall>) -> nat
    decreases calls.len(),
{
    if calls.len() == 0 {
        0
    } else {
        publish_count(calls.drop_last()) + if calls.last() is Publish {
            1nat
        } else {
            0nat
        }
    }
}

/// Publish requests add up over consecutive runs of requests.
pub proof fn lemma_publish_count_concat(a: Seq<TransportCall>, b: Seq<TransportCall>)
    ensures
        publish_count(a + b) == publish_count(a) + publish_count(b),
    decreases b.len(),
{
    if b.len() > 0 {
        lemma_publish_count_concat(a, b.drop_last());
        assert((a + b).drop_last() =~= a + b.drop_last());
        assert((a + b).last() == b.last());
    } else {
        assert(a + b =~= a);
    }
}

/// A sink for publications. Every implementation keeps a record of the
/// requests it has been given: each `advertise` and each `publish` adds one
/// entry, whether or not the transport could carry it out.
pub trait Transport {
    /// The requests given to this transport so far, in order. The default,
    /// no record at all, cannot meet the contracts of `advertise` and
    /// `publish` below: every transport that verifies defines its own.
    open spec fn received(&self) -> Seq<TransportCall> {
        Seq::<TransportCall>::empty()
    }

    /// Advertise a topic.
    fn advertise(&mut self, topic: &str, msg_type: &str) -> (r: Result<(), TransportError>)
        ensures
            final(self).received() == old(self).received().push(TransportCall::Advertise(topic@, msg_type@)),
    ;

    /// Publish one message.
    fn publish(&mut self, p: &Publication) -> (r: Result<(), TransportError>)
        ensures
            final(self).received() == old(self).received().push(TransportCall::Publish(p.topic@, p.msg_type@)),
    ;

    /// Number of messages published so far; a transport that does not
    /// count reports 0.
    fn published_count(&self) -> (n: usize)
        default_ensures
            n == 0,
    {
        0
    }
}

/// The successor of `n` in `usize` arithmetic, wrapping at the top.
pub open spec fn next_count(n: usize) -> usize {
    if n < usize::MAX {
        (n + 1) as usize
    } else {
        0
    }
}

/// `n` in `usize` arithmetic: its remainder modulo `usize::MAX + 1`.
pub open spec fn wrapped(n: nat) -> usize {
    (n % (usize::MAX as nat + 1)) as usize
}

/// Counting one more wraps as a `usize` counter does.
pub proof fn lemma_wrapped_next(n: nat)
    ensures
        wrapped(n + 1) == next_count(wrapped(n)),
{
    let m = usize::MAX as nat + 1;
    let q = n / m;
    let r = n % m;
    assert(n == q * m + r && 0 <= r < m) by (nonlinear_arith)
        requires
            m > 0,
            q == n / m,
            r == n % m,
    ;
    if r + 1 < m {
        lemma_fundamental_div_mod_converse((n + 1) as int, m as int, q as int, (r + 1) as int);
    } else {
        assert(n + 1 == (q + 1) * m + 0) by (nonlinear_arith)
            requires
                n == q * m + r,
                r + 1 == m,
        ;
        lemma_fundamental_div_mod_converse((n + 1) as int, m as int, (q + 1) as int, 0);
    }
}

/// Nothing counted is 0.
pub proof fn lemma_wrapped_zero()
    ensures
        wrapped(publish_count(Seq::<TransportCall>::empty())) == 0,
{
    lemma_fundamental_div_mod_converse(0, usize::MAX as int + 1, 0, 0);
}

/// Drops everything; used when ROS 2 is unavailable.
pub struct NullTransport {
    count: usize,
    calls: Ghost<Seq<TransportCall>>,
}

impl NullTransport {
    /// The counter tracks the publish requests received, as a `usize`.
    #[verifier::type_invariant]
    spec fn counts_publishes(self) -> bool {
        self.count == wrapped(publish_count(self.calls@))
    }

    /// Messages seen so far.
    pub closed spec fn seen(&self) -> usize {
        self.count
    }

    /// A transport that has seen nothing.
    pub fn new() -> (t: Self)
        ensures
            t.seen() == 0,
            t.received() == Seq::<TransportCall>::empty(),
    {
        proof {
            lemma_wrapped_zero();
        }
        NullTransport { count: 0, calls: Ghost(Seq::empty()) }
    }

    /// Messages seen so far: the publish requests received.
    pub fn count(&self) -> (n: usize)
        ensures
            n == self.seen(),
            n == wrapped(publish_count(self.received())),
    {
        proof {
            use_type_invariant(self);
        }
        self.count
    }
}

impl Default for NullTransport {
    fn default() -> (t: Self)
        ensures
            t.seen() == 0,
            t.received() == Seq::<TransportCall>::empty(),
    {
        proof {
            lemma_wrapped_zero();
        }
        NullTransport { count: 0, calls: Ghost(Seq::empty()) }
    }
}

impl Transport for NullTransport {
    closed spec fn received(&self) -> Seq<TransportCall> {
        self.calls@
    }

    fn advertise(&mut self, topic: &str, msg_type: &str) -> (r: Result<(), TransportError>)
        ensures
            r is Ok,
            final(self).seen() == old(self).seen(),
    {
        proof {
            use_type_invariant(&*self);
        }
        let c = self.count;
        let ghost calls = self.calls@.push(TransportCall::Advertise(topic@, msg_type@));
        proof {
            assert(calls.drop_last() =~= self.calls@);
        }
        *self = NullTransport { count: c, calls: Ghost(calls) };
        Ok(())
    }

    fn publish(&mut self, p: &Publication) -> (r: Result<(), TransportError>)
        ensures
            r is Ok,
            final(self).seen() == next_count(old(self).seen()),
    {
        proof {
            use_type_invariant(&*self);
            lemma_wrapped_next(publish_count(self.calls@));
        }
        let c = self.count.wrapping_add(1);
        let ghost calls = self.calls@.push(TransportCall::Publish(p.topic@, p.msg_type@));
        proof {
            assert(calls.drop_last() =~= self.calls@);
        }
        *self = NullTransport { count: c, calls: Ghost(calls) };
        Ok(())
    }

    fn published_count(&self) -> (n: usize)
        ensures
            n == self.seen(),
            n == wrapped(publish_count(self.received())),
    {
        proof {
            use_type_invariant(self);
        }
        self.count
    }
}

/// Flushes `w`.
///
/// Calls `std::io::Write::flush`. Nothing is stated of the outcome, which
/// depends on the stream.
#[verifier::external_body]
fn flush_stream<W: std::io::Write>(w: &mut W) -> Result<(), std::io::Error> {
    w.flush()
}

/// A line of a JSON-lines stream: text free of newlines, ended by one
/// newline.
pub open spec fn framed_line(l: Seq<char>) -> bool {
    l.len() > 0 && l.last() == '\n' && newline_free(l.drop_last())
}

/// Writes rosbridge-style `{"op":"publish",...}` JSON lines to a stream.
pub struct JsonlTransport<W> {
    w: W,
    count: usize,
    lines: Ghost<Seq<Seq<char>>>,
}

impl<W> JsonlTransport<W> {
    /// Publications written and flushed so far.
    pub closed spec fn written(&self) -> usize {
        self.count
    }

    /// The stream the lines go to.
    pub closed spec fn stream(&self) -> W {
        self.w
    }

    /// Every line handed to the stream's `write_all` so far, newline
    /// included, in order.
    pub closed spec fn lines(&self) -> Seq<Seq<char>> {
        self.lines@
    }

    /// Every line handed to the stream is one JSON-lines record.
    pub open spec fn lines_framed(&self) -> bool {
        forall|i: int| 0 <= i < self.lines().len() ==> framed_line(#[trigger] self.lines()[i])
    }

    /// Wrap a writer.
    pub fn new(w: W) -> (t: Self)
        ensures
            t.lines_framed(),
            t.written() == 0,
            t.stream() == w,
            t.lines() == Seq::<Seq<char>>::empty(),
    {
        JsonlTransport { w, count: 0, lines: Ghost(Seq::empty()) }
    }
}

impl<W: std::io::Write> JsonlTransport<W> {
    /// Hands `line` to the stream in full.
    ///
    /// Calls `std::io::Write::write_all` on the stream with the bytes of
    /// `line`. The contract claims that `lines()` gains exactly the line
    /// handed over, whatever the outcome; the outcome itself, which depends
    /// on the stream, is not stated.
    #[verifier::external_body]
    fn write_line(&mut self, line: &str) -> (r: Result<(), std::io::Error>)
        ensures
            final(self).lines() == old(self).lines().push(line@),
            final(self).count == old(self).count,
    {
        self.w.write_all(line.as_bytes())
    }

    /// Hand one line to the stream and flush it.
    fn emit(&mut self, line: String) -> (r: Result<(), TransportError>)
        requires
            framed_line(line@),
        ensures
            old(self).lines_framed() ==> final(self).lines_framed(),
            final(self).lines() == old(self).lines().push(line@),
            final(self).written() == old(self).written(),
    {
        let ghost before = self.lines@;
        let w = self.write_line(line.as_str());
        proof {
            if old(self).lines_framed() {
                assert forall|i: int| 0 <= i < self.lines().len() implies framed_line(#[trigger] self.lines()[i]) by {
                    if i < before.len() {
                        assert(framed_line(before[i]));
                    }
                }
            }
        }
        match w {
            Ok(()) => {},
            Err(e) => {
                return Err(TransportError::Io(e));
            },
        }
        match flush_stream(&mut self.w) {
            Ok(()) => Ok(()),
            Err(e) => Err(TransportError::Io(e)),
        }
    }

    /// Write the `advertise` line of `topic` and flush.
    pub fn advertise(&mut self, topic: &str, msg_type: &str) -> (r: Result<(), TransportError>)
        ensures
            final(self).lines() == old(self).lines().push(op_line("advertise"@, topic@, msg_type@).push('\n')),
            final(self).written() == old(self).written(),
            old(self).lines_framed() ==> final(self).lines_framed(),
    {
        let mut line = op_json_line("advertise", topic, msg_type);
        line.push('\n');
        proof {
            lemma_op_line_newline_free("advertise"@, topic@, msg_type@);
            assert(line@.drop_last() =~= op_line("advertise"@, topic@, msg_type@));
        }
        self.emit(line)
    }

    /// Write the `publish` line of `p` and flush; counts the publication
    /// when both succeed.
    pub fn publish(&mut self, p: &Publication) -> (r: Result<(), TransportError>)
        ensures
            final(self).lines() == old(self).lines().push(
                publish_op_line(p.topic@, p.msg_type@, json_value_text(p.payload)).push('\n'),
            ),
            final(self).written() == if r is Ok {
                next_count(old(self).written())
            } else {
                old(self).written()
            },
            old(self).lines_framed() ==> final(self).lines_framed(),
    {
        let mut line = publish_json_line(p.topic.as_str(), p.msg_type.as_str(), &p.payload);
        line.push('\n');
        proof {
            lemma_publish_line_newline_free(p.topic@, p.msg_type@, json_value_text(p.payload));
            assert(line@.drop_last() =~= publish_op_line(p.topic@, p.msg_type@, json_value_text(p.payload)));
        }
        let r = self.emit(line);
        if r.is_ok() {
            self.count = self.count.wrapping_add(1);
        }
        r
    }

    /// Number of messages published so far.
    pub fn published_count(&self) -> (n: usize)
        ensures
            n == self.written(),
    {
        self.count
    }
}

/// The string member `key` of a JSON document, if it has one.
pub open spec fn string_member(v: serde_json::Value, key: Seq<char>) -> Option<Seq<char>> {
    match json_member(v, key) {
        Some(m) => json_str(m),
        None => None,
    }
}

/// The twist payload carried by a rosbridge message: the `msg` member of a
/// `publish` operation on `/cmd_vel`; nothing for every other message.
pub open spec fn cmd_vel_payload(text: Seq<char>) -> Option<serde_json::Value> {
    match json_parse(text) {
        Some(v) => if string_member(v, "op"@) == Some("publish"@) && string_member(v, "topic"@) == Some(
            "/cmd_vel"@,
        ) {
            json_member(v, "msg"@)
        } else {
            None
        },
        None => None,
    }
}

/// The string member `key` of `v`.
fn string_member_of(v: &serde_json::Value, key: &str) -> (r: Option<String>)
    ensures
        match r {
            Some(s) => string_member(*v, key@) == Some(s@),
            None => string_member(*v, key@) is None,
        },
{
    match member(v, key) {
        Some(m) => as_str(&m),
        None => None,
    }
}

/// Does `s` hold the text `t`?
fn holds_text(s: &Option<String>, t: &str) -> (r: bool)
    ensures
        r == (s matches Some(x) && x@ == t@),
{
    match s {
        Some(x) => {
            let expected = String::from_str(t);
            *x == expected
        },
        None => false,
    }
}

/// Is a rosbridge message with string members `op` and `topic` a
/// publication on `/cmd_vel`?
pub fn is_cmd_vel_publication(op: &Option<String>, topic: &Option<String>) -> (r: bool)
    ensures
        r == ((op matches Some(o) && o@ == "publish"@) && (topic matches Some(t) && t@ == "/cmd_vel"@)),
{
    holds_text(op, "publish") && holds_text(topic, "/cmd_vel")
}

/// The twist payload of a parsed rosbridge message, if it is a publication
/// on `/cmd_vel`.
pub fn cmd_vel_of(v: &serde_json::Value) -> (m: Option<serde_json::Value>)
    ensures
        m == (if string_member(*v, "op"@) == Some("publish"@) && string_member(*v, "topic"@) == Some(
            "/cmd_vel"@,
        ) {
            json_member(*v, "msg"@)
        } else {
            None
        }),
{
    let op = string_member_of(v, "op");
    let topic = string_member_of(v, "topic");
    if is_cmd_vel_publication(&op, &topic) {
        member(v, "msg")
    } else {
        None
    }
}

/// The twist payload of a text message received from rosbridge, if it is a
/// publication on `/cmd_vel`.
pub fn cmd_vel_message(text: &str) -> (m: Option<serde_json::Value>)
    ensures
        m == cmd_vel_payload(text@),
{
    match parse_json(text) {
        Some(v) => cmd_vel_of(&v),
        None => None,
    }
}

/// `s` up to its first `/`, or all of it.
pub open spec fn before_slash(s: Seq<char>) -> Seq<char>
    decreases s.len(),
{
    if s.len() == 0 {
        s
    } else if s[0] == '/' {
        Seq::<char>::empty()
    } else {
        seq![s[0]] + before_slash(s.drop_first())
    }
}

/// The websocket scheme prefix `ws://`.
pub open spec fn ws_scheme() -> Seq<char> {
    seq!['w', 's', ':', '/', '/']
}

/// The `host:port` of a `ws://` URL: what follows the scheme, up to the
/// first `/`; `None` for any other scheme.
pub open spec fn ws_host_port(url: Seq<char>) -> Option<Seq<char>> {
    if url.len() >= 5 && url.subrange(0, 5) == ws_scheme() {
        Some(before_slash(url.subrange(5, url.len() as int)))
    } else {
        None
    }
}

/// `before_slash(s)` is the longest prefix of `s` without a `/`: a prefix
/// of `s` holding no `/`, followed in `s` by a `/` or by nothing.
proof fn lemma_before_slash(s: Seq<char>)
    ensures
        before_slash(s).len() <= s.len(),
        s.subrange(0, before_slash(s).len() as int) == before_slash(s),
        forall|i: int| 0 <= i < before_slash(s).len() ==> #[trigger] before_slash(s)[i] != '/',
        before_slash(s).len() == s.len() || s[before_slash(s).len() as int] == '/',
    decreases s.len(),
{
    if s.len() > 0 && s[0] != '/' {
        let t = s.drop_first();
        lemma_before_slash(t);
        let b = before_slash(t);
        assert(before_slash(s) == seq![s[0]] + b);
        assert(s.subrange(0, b.len() + 1int) =~= seq![s[0]] + t.subrange(0, b.len() as int));
        assert forall|i: int| 0 <= i < before_slash(s).len() implies #[trigger] before_slash(s)[i] != '/' by {
            if i > 0 {
                assert(before_slash(s)[i] == b[i - 1]);
            }
        }
        if b.len() < t.len() {
            assert(s[b.len() + 1int] == t[b.len() as int]);
        }
    } else if s.len() > 0 {
        assert(s.subrange(0, 0) =~= Seq::<char>::empty());
    }
}

/// What the rosbridge address check accepts: a `ws://` URL, whose
/// `host:port` is the text right after `ws://`, holding no `/`, and running
/// to the end of the URL or to its first `/`. Every URL of another scheme
/// is refused.
pub proof fn lemma_ws_host_port_parts(url: Seq<char>)
    ensures
        match ws_host_port(url) {
            Some(hp) => {
                &&& url.len() >= 5 + hp.len()
                &&& url.subrange(0, 5) == seq!['w', 's', ':', '/', '/']
                &&& url.subrange(5, 5 + hp.len() as int) == hp
                &&& forall|i: int| 0 <= i < hp.len() ==> #[trigger] hp[i] != '/'
                &&& (5 + hp.len() == url.len() || url[5 + hp.len() as int] == '/')
            },
            None => !(url.len() >= 5 && url.subrange(0, 5) == seq!['w', 's', ':', '/', '/']),
        },
{
    if url.len() >= 5 && url.subrange(0, 5) == ws_scheme() {
        let rest = url.subrange(5, url.len() as int);
        lemma_before_slash(rest);
        let hp = before_slash(rest);
        assert(url.subrange(5, 5 + hp.len() as int) =~= rest.subrange(0, hp.len() as int));
        if 5 + hp.len() < url.len() {
            assert(url[5 + hp.len() as int] == rest[hp.len() as int]);
        }
    }
}

/// The `host:port` to open a TCP connection to for the rosbridge URL `url`;
/// only plain `ws://` URLs are supported.
pub fn rosbridge_host_port(url: &str) -> (r: Result<String, TransportError>)
    ensures
        match ws_host_port(url@) {
            Some(hp) => r matches Ok(s) && s@ == hp,
            None => r matches Err(TransportError::Ws(m)) && m@ == "unsupported url scheme: "@ + url@,
        },
{
    let n = url.unicode_len();
    let mut is_ws = n >= 5;
    let mut i: usize = 0;
    while i < 5 && is_ws
        invariant
            n == url@.len(),
            i <= 5,
            is_ws ==> n >= 5,
            is_ws ==> forall|j: int| 0 <= j < i ==> url@[j] == ws_scheme()[j],
            !is_ws ==> !(url@.len() >= 5 && url@.subrange(0, 5) == ws_scheme()),
        decreases 5 - i,
    {
        let c = url.get_char(i);
        let expected = if i == 0 {
            'w'
        } else if i == 1 {
            's'
        } else if i == 2 {
            ':'
        } else {
            '/'
        };
        if c != expected {
            is_ws = false;
            assert(url@.subrange(0, 5)[i as int] != ws_scheme()[i as int]);
        }
        i = i + 1;
    }
    if !is_ws {
        let mut m = String::from_str("unsupported url scheme: ");
        m.append(url);
        return Err(TransportError::Ws(m));
    }
    assert(url@.subrange(0, 5) =~= ws_scheme());
    let mut host = String::new();
    let mut k: usize = 5;
    let ghost rest = url@.subrange(5, n as int);
    while k < n && url.get_char(k) != '/'
        invariant
            n == url@.len(),
            5 <= k <= n,
            rest == url@.subrange(5, n as int),
            forall|j: int| 5 <= j < k ==> url@[j] != '/',
            host@ == url@.subrange(5, k as int),
            before_slash(rest) == host@ + before_slash(url@.subrange(k as int, n as int)),
        decreases n - k,
    {
        let c = url.get_char(k);
        host.push(c);
        proof {
            let tail = url@.subrange(k as int, n as int);
            assert(tail[0] == c);
            assert(tail.drop_first() =~= url@.subrange(k + 1, n as int));
            assert(host@ =~= url@.subrange(5, k + 1));
            assert(seq![c] + before_slash(tail.drop_first()) == before_slash(tail));
            assert(before_slash(rest) =~= host@ + before_slash(url@.subrange(k + 1, n as int)));
        }
        k = k + 1;
    }
    proof {
        let tail = url@.subrange(k as int, n as int);
        if k < n {
            assert(tail[0] == '/');
        }
        assert(before_slash(tail) =~= Seq::<char>::empty());
        assert(before_slash(rest) =~= host@);
    }
    Ok(host)
}

} // verus!
