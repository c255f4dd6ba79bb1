//! Browser sessions: kept in memory only, with a fixed lifetime that is never
//! renewed. A session that ends, by logout or expiry, is reported so that its
//! event streams can be closed.

use crate::call;
use crate::text;
use base64::Engine;
use rand::RngCore;
use subtle::ConstantTimeEq;
use vstd::prelude::*;

verus! {

pub const SESSION_COOKIE_NAME: &'static str = "mousehole-session";

// Session ids.
/// The character of a six-bit digit in the URL-safe base64 alphabet.
pub open spec fn base64url_char(d: int) -> char {
    if d < 26 {
        (0x41 + d) as char
    } else if d < 52 {
        (0x61 + (d - 26)) as char
    } else if d < 62 {
        (0x30 + (d - 52)) as char
    } else if d == 62 {
        '-'
    } else {
        '_'
    }
}

/// Base64 in the URL-safe alphabet without padding: three bytes make four
/// digits, and a rest of one or two bytes makes two or three.
pub open spec fn base64url(bytes: Seq<u8>) -> Seq<char>
    decreases bytes.len(),
{
    let a = bytes[0] as int;
    let b = bytes[1] as int;
    let c = bytes[2] as int;
    if bytes.len() == 0 {
        Seq::empty()
    } else if bytes.len() == 1 {
        seq![base64url_char(a / 4), base64url_char((a % 4) * 16)]
    } else if bytes.len() == 2 {
        seq![
            base64url_char(a / 4),
            base64url_char((a % 4) * 16 + b / 16),
            base64url_char((b % 16) * 4),
        ]
    } else {
        seq![
            base64url_char(a / 4),
            base64url_char((a % 4) * 16 + b / 16),
            base64url_char((b % 16) * 4 + c / 64),
            base64url_char(c % 64),
        ] + base64url(bytes.skip(3))
    }
}

/// A letter, a digit, a hyphen or an underscore.
pub open spec fn is_id_char(c: char) -> bool {
    ||| 'A' <= c && c <= 'Z'
    ||| 'a' <= c && c <= 'z'
    ||| '0' <= c && c <= '9'
    ||| c == '-'
    ||| c == '_'
}

pub open spec fn is_id(s: Seq<char>) -> bool {
    forall|i: int| 0 <= i < s.len() ==> is_id_char(#[trigger] s[i])
}

proof fn lemma_digit(d: int)
    requires
        0 <= d < 64,
    ensures
        is_id_char(base64url_char(d)),
{
}

proof fn lemma_digits_differ(d: int, e: int)
    requires
        0 <= d < 64,
        0 <= e < 64,
        base64url_char(d) == base64url_char(e),
    ensures
        d == e,
{
}

/// How many digits so many bytes make.
pub open spec fn base64url_len(n: nat) -> nat {
    (n / 3) * 4 + if n % 3 == 0 {
        0
    } else {
        n % 3 + 1
    }
}

/// Encoded bytes are letters, digits, hyphens and underscores, as many as
/// their number asks for.
pub proof fn law_ids_are_url_safe(bytes: Seq<u8>)
    ensures
        is_id(base64url(bytes)),
        base64url(bytes).len() == base64url_len(bytes.len()),
    decreases bytes.len(),
{
    if bytes.len() >= 3 {
        law_ids_are_url_safe(bytes.skip(3));
        let head = base64url(bytes).take(4);
        assert(base64url(bytes) =~= head + base64url(bytes.skip(3)));
        assert forall|i: int| 0 <= i < base64url(bytes).len() implies is_id_char(
            #[trigger] base64url(bytes)[i],
        ) by {
            if i >= 4 {
                assert(base64url(bytes)[i] == base64url(bytes.skip(3))[i - 4]);
            } else {
                lemma_digit(bytes[0] as int / 4);
                lemma_digit((bytes[0] as int % 4) * 16 + bytes[1] as int / 16);
                lemma_digit((bytes[1] as int % 16) * 4 + bytes[2] as int / 64);
                lemma_digit(bytes[2] as int % 64);
            }
        }
    } else if bytes.len() > 0 {
        lemma_digit(bytes[0] as int / 4);
        lemma_digit((bytes[0] as int % 4) * 16);
        if bytes.len() == 2 {
            lemma_digit((bytes[0] as int % 4) * 16 + bytes[1] as int / 16);
            lemma_digit((bytes[1] as int % 16) * 4);
        }
    }
}

/// Different bytes of one length make different ids.
pub proof fn law_ids_are_injective(x: Seq<u8>, y: Seq<u8>)
    requires
        x.len() == y.len(),
        base64url(x) == base64url(y),
    ensures
        x == y,
    decreases x.len(),
{
    if x.len() == 0 {
        assert(x =~= y);
    } else {
        let (a, b) = (base64url(x), base64url(y));
        assert(a[0] == b[0] && a[1] == b[1]);
        lemma_digits_differ(x[0] as int / 4, y[0] as int / 4);
        if x.len() == 1 {
            lemma_digits_differ((x[0] as int % 4) * 16, (y[0] as int % 4) * 16);
            assert(x =~= y);
        } else {
            assert(a[2] == b[2]);
            lemma_digits_differ(
                (x[0] as int % 4) * 16 + x[1] as int / 16,
                (y[0] as int % 4) * 16 + y[1] as int / 16,
            );
            if x.len() == 2 {
                lemma_digits_differ((x[1] as int % 16) * 4, (y[1] as int % 16) * 4);
                assert(x =~= y);
            } else {
                assert(a[3] == b[3]);
                lemma_digits_differ(
                    (x[1] as int % 16) * 4 + x[2] as int / 64,
                    (y[1] as int % 16) * 4 + y[2] as int / 64,
                );
                lemma_digits_differ(x[2] as int % 64, y[2] as int % 64);
                assert(a.skip(4) =~= base64url(x.skip(3)));
                assert(b.skip(4) =~= base64url(y.skip(3)));
                law_ids_are_injective(x.skip(3), y.skip(3));
                assert forall|i: int| 0 <= i < x.len() implies x[i] == y[i] by {
                    if i >= 3 {
                        assert(x[i] == x.skip(3)[i - 3]);
                        assert(y[i] == y.skip(3)[i - 3]);
                    }
                }
                assert(x =~= y);
            }
        }
    }
}

/// `rand::rng` and `RngCore::fill_bytes`: bytes from a generator that is fit
/// for secrets. They rest on chance, so nothing is said of them.
#[verifier::external_body]
fn random_bytes() -> (r: [u8; 32]) {
    let mut bytes = [0u8; 32];
    rand::rng().fill_bytes(&mut bytes);
    bytes
}

/// An id that is made of random bytes.
pub closed spec fn drawn(id: Seq<char>) -> bool {
    exists|bytes: [u8; 32]| id == base64url(bytes@) && #[trigger] call_ensures(random_bytes, (), bytes)
}

/// `base64`'s `URL_SAFE_NO_PAD` engine, `encode`: the bytes in base64, in the
/// URL-safe alphabet and without padding.
#[verifier::external_body]
fn encode(bytes: &[u8; 32]) -> (r: String)
    ensures
        r@ == base64url(bytes@),
{
    base64::engine::general_purpose::URL_SAFE_NO_PAD.encode(bytes)
}

// The store.
/// The live sessions, each with the moment at which it ends, and the ids of
/// those that ended and have not been reported yet. Moments are nanoseconds
/// on one clock.
pub struct SessionStore {
    sessions: Vec<(String, u128)>,
    duration: u128,
    ended: Vec<String>,
}

#[verifier::ext_equal]
pub struct SessionsView {
    pub live: Seq<(Seq<char>, u128)>,
    pub duration: u128,
    pub ended: Seq<Seq<char>>,
}

impl View for SessionStore {
    type V = SessionsView;

    closed spec fn view(&self) -> SessionsView {
        SessionsView {
            live: self.sessions.deep_view(),
            duration: self.duration,
            ended: self.ended.deep_view(),
        }
    }
}

/// The lifetime of a number of seconds, in nanoseconds.
pub open spec fn lifetime(seconds: u64) -> u128 {
    (seconds * 1_000_000_000) as u128
}

/// Sessions of another id.
pub open spec fn other_id(id: Seq<char>) -> spec_fn((Seq<char>, u128)) -> bool {
    |s: (Seq<char>, u128)| s.0 != id
}

/// The sessions without the one of that id.
pub open spec fn without(live: Seq<(Seq<char>, u128)>, id: Seq<char>) -> Seq<(Seq<char>, u128)> {
    live.filter(other_id(id))
}

/// The sessions that go on beyond a moment.
pub open spec fn going_on(live: Seq<(Seq<char>, u128)>, now: u64) -> Seq<(Seq<char>, u128)> {
    live.filter(|s: (Seq<char>, u128)| s.1 > now)
}

/// The ids of the sessions that are over at a moment.
pub open spec fn over(live: Seq<(Seq<char>, u128)>, now: u64) -> Seq<Seq<char>> {
    live.filter(|s: (Seq<char>, u128)| s.1 <= now).map_values(|s: (Seq<char>, u128)| s.0)
}

pub open spec fn known(live: Seq<(Seq<char>, u128)>, id: Seq<char>) -> bool {
    exists|i: int| 0 <= i < live.len() && (#[trigger] live[i]).0 == id
}

pub open spec fn distinct_ids(live: Seq<(Seq<char>, u128)>) -> bool {
    forall|i: int, j: int|
        0 <= i < j < live.len() ==> (#[trigger] live[i]).0 != (#[trigger] live[j]).0
}

impl SessionsView {
    /// A session of that id that goes on beyond that moment.
    pub open spec fn valid_at(self, id: Seq<char>, now: u64) -> bool {
        known(going_on(self.live, now), id)
    }

    /// After a login: the new session ends one lifetime from now. The id takes
    /// the place of an equal one, if there were any.
    pub open spec fn after_create(self, id: Seq<char>, now: u64) -> SessionsView {
        SessionsView {
            live: without(self.live, id).push((id, (now + self.duration) as u128)),
            ..self
        }
    }

    /// After a look at the sessions: those that are over have ended.
    pub open spec fn after_sweep(self, now: u64) -> SessionsView {
        SessionsView {
            live: going_on(self.live, now),
            ended: self.ended + over(self.live, now),
            ..self
        }
    }

    /// After a logout: a known session has ended; an unknown one changes
    /// nothing.
    pub open spec fn after_delete(self, id: Seq<char>) -> SessionsView {
        if known(self.live, id) {
            SessionsView { live: without(self.live, id), ended: self.ended.push(id), ..self }
        } else {
            self
        }
    }

    /// After a session's timer: it has ended if it is over by then.
    pub open spec fn after_reap(self, id: Seq<char>, now: u64) -> SessionsView {
        if known(self.live, id) && !known(going_on(self.live, now), id) {
            self.after_delete(id)
        } else {
            self
        }
    }

    /// No id occurs twice among the live sessions, and lifetimes are within
    /// what the clock can count beyond.
    pub open spec fn wf(self) -> bool {
        distinct_ids(self.live) && self.duration <= lifetime(u64::MAX)
    }
}

impl SessionStore {
    #[verifier::type_invariant]
    spec fn valid(self) -> bool {
        self@.wf()
    }

    pub fn new(duration_seconds: u64) -> (r: Self)
        ensures
            r@ == (SessionsView {
                live: Seq::empty(),
                duration: lifetime(duration_seconds),
                ended: Seq::empty(),
            }),
            r@.wf(),
    {
        let r = SessionStore {
            sessions: Vec::new(),
            duration: duration_seconds as u128 * 1_000_000_000,
            ended: Vec::new(),
        };
        assert(r@.live =~= Seq::empty());
        assert(r@.ended =~= Seq::empty());
        r
    }

    fn is_known(&self, id: &str) -> (r: bool)
        ensures
            r == known(self@.live, id@),
    {
        let mut i: usize = 0;
        while i < self.sessions.len()
            invariant
                i <= self.sessions.len(),
                forall|k: int| 0 <= k < i ==> (#[trigger] self@.live[k]).0 != id@,
            decreases self.sessions.len() - i,
        {
            if text::same_text(&self.sessions[i].0, id) {
                assert(self@.live[i as int].0 == id@);
                return true;
            }
            i = i + 1;
        }
        false
    }

    /// The sessions but for the one of that id.
    fn others(&self, id: &str) -> (r: Vec<(String, u128)>)
        ensures
            r.deep_view() == without(self@.live, id@),
    {
        let ghost live = self@.live;
        let ghost keep = other_id(id@);
        let mut kept: Vec<(String, u128)> = Vec::new();
        let mut i: usize = 0;
        proof {
            reveal(Seq::filter);
            assert(kept.deep_view() =~= live.take(0).filter(keep));
        }
        while i < self.sessions.len()
            invariant
                i <= self.sessions.len(),
                live == self.sessions.deep_view(),
                keep == other_id(id@),
                kept.deep_view() == live.take(i as int).filter(keep),
            decreases self.sessions.len() - i,
        {
            let entry = &self.sessions[i];
            let ghost before = kept.deep_view();
            proof {
                reveal(Seq::filter);
                assert(live.take(i + 1).drop_last() =~= live.take(i as int));
                assert(live.take(i + 1).last() == (entry.0@, entry.1));
            }
            if !text::same_text(&entry.0, id) {
                kept.push((entry.0.clone(), entry.1));
                assert(kept.deep_view() =~= before.push((entry.0@, entry.1)));
            }
            i = i + 1;
        }
        assert(live.take(i as int) =~= live);
        kept
    }

    /// Opens a session under the id that these bytes make.
    pub fn create_with(&mut self, bytes: &[u8; 32], now: u64) -> (id: String)
        ensures
            id@ == base64url(bytes@),
            final(self)@ == old(self)@.after_create(id@, now),
            final(self)@.wf(),
    {
        proof {
            use_type_invariant(&*self);
        }
        let id = encode(bytes);
        proof {
            lemma_ids_stay_distinct(self@, id@, now);
        }
        let mut kept = self.others(&id);
        let ghost before = kept.deep_view();
        let expiry: u128 = now as u128 + self.duration;
        kept.push((id.clone(), expiry));
        assert(kept.deep_view() =~= before.push((id@, expiry)));
        self.sessions = kept;
        id
    }

    /// Opens a session under a new random id of 43 characters.
    pub fn create(&mut self, now: u64) -> (id: String)
        ensures
            drawn(id@),
            id@.len() == 43,
            is_id(id@),
            final(self)@ == old(self)@.after_create(id@, now),
            final(self)@.wf(),
    {
        let bytes = call::ask(random_bytes);
        proof {
            law_ids_are_url_safe(bytes@);
            assert(call_ensures(random_bytes, (), bytes));
        }
        self.create_with(&bytes, now)
    }

    /// Ends what is over, then says whether the session is live.
    pub fn is_valid(&mut self, id: &str, now: u64) -> (r: bool)
        ensures
            final(self)@ == old(self)@.after_sweep(now),
            final(self)@.wf(),
            over(old(self)@.live, now).no_duplicates(),
            r == old(self)@.valid_at(id@, now),
    {
        let ghost live = self@.live;
        let ghost ended = self@.ended;
        let ghost stays = |s: (Seq<char>, u128)| s.1 > now;
        let ghost ends = |s: (Seq<char>, u128)| s.1 <= now;
        let ghost name = |s: (Seq<char>, u128)| s.0;
        let mut kept: Vec<(String, u128)> = Vec::new();
        let mut done: Vec<String> = Vec::new();
        let mut i: usize = 0;
        proof {
            reveal(Seq::filter);
            assert(kept.deep_view() =~= live.take(0).filter(stays));
            assert(done.deep_view() =~= live.take(0).filter(ends).map_values(name));
        }
        while i < self.sessions.len()
            invariant
                i <= self.sessions.len(),
                live == self.sessions.deep_view(),
                stays == (|s: (Seq<char>, u128)| s.1 > now),
                ends == (|s: (Seq<char>, u128)| s.1 <= now),
                name == (|s: (Seq<char>, u128)| s.0),
                kept.deep_view() == live.take(i as int).filter(stays),
                done.deep_view() == live.take(i as int).filter(ends).map_values(name),
            decreases self.sessions.len() - i,
        {
            let entry = &self.sessions[i];
            let ghost kept_before = kept.deep_view();
            let ghost done_before = done.deep_view();
            proof {
                reveal(Seq::filter);
                assert(live.take(i + 1).drop_last() =~= live.take(i as int));
                assert(live.take(i + 1).last() == (entry.0@, entry.1));
            }
            if entry.1 > now as u128 {
                kept.push((entry.0.clone(), entry.1));
                assert(kept.deep_view() =~= kept_before.push((entry.0@, entry.1)));
            } else {
                done.push(entry.0.clone());
                assert(done.deep_view() =~= done_before.push(entry.0@));
                assert(live.take(i + 1).filter(ends).map_values(name) =~= live.take(
                    i as int,
                ).filter(ends).map_values(name).push(entry.0@));
            }
            i = i + 1;
        }
        assert(live.take(i as int) =~= live);
        proof {
            use_type_invariant(&*self);
            lemma_ids_stay_distinct(self@, id@, now);
        }
        self.sessions = kept;
        let ghost done_ids = done.deep_view();
        let mut ended_now = self.take_list();
        let ghost ended_then = ended_now.deep_view();
        ended_now.append(&mut done);
        assert(ended_now.deep_view() =~= ended_then + done_ids);
        self.ended = ended_now;
        self.is_known(id)
    }

    fn take_list(&mut self) -> (r: Vec<String>)
        ensures
            r.deep_view() == old(self)@.ended,
            final(self)@.live == old(self)@.live,
            final(self)@.duration == old(self)@.duration,
            final(self)@.ended == Seq::<Seq<char>>::empty(),
    {
        proof {
            use_type_invariant(&*self);
        }
        let mut list: Vec<String> = Vec::new();
        std::mem::swap(&mut list, &mut self.ended);
        assert(self@.ended =~= Seq::empty());
        list
    }

    /// Logout: ends a known session.
    pub fn delete(&mut self, id: &str)
        ensures
            final(self)@ == old(self)@.after_delete(id@),
            final(self)@.wf(),
    {
        proof {
            use_type_invariant(&*self);
            lemma_ids_stay_distinct(self@, id@, 0);
        }
        if self.is_known(id) {
            let kept = self.others(id);
            self.sessions = kept;
            let ghost ended = self@.ended;
            let mut list = self.take_list();
            list.push(id.to_owned());
            assert(list.deep_view() =~= ended.push(id@));
            self.ended = list;
        }
    }

    /// A session's timer went off: ends it if it is over by now.
    pub fn reap(&mut self, id: &str, now: u64)
        ensures
            final(self)@ == old(self)@.after_reap(id@, now),
            final(self)@.wf(),
    {
        proof {
            use_type_invariant(&*self);
        }
        let mut live_on: bool = false;
        let mut i: usize = 0;
        let ghost live = self@.live;
        while i < self.sessions.len()
            invariant
                i <= self.sessions.len(),
                live == self.sessions.deep_view(),
                live_on == exists|k: int|
                    0 <= k < i && (#[trigger] live[k]).0 == id@ && live[k].1 > now,
            decreases self.sessions.len() - i,
        {
            let entry = &self.sessions[i];
            assert(live[i as int] == (entry.0@, entry.1));
            if text::same_text(&entry.0, id) && entry.1 > now as u128 {
                live_on = true;
            }
            i = i + 1;
        }
        proof {
            lemma_going_on(live, id@, now);
        }
        if !live_on {
            self.delete(id);
        }
    }

    /// The ids of the sessions that ended since the last call, in the order in
    /// which they did.
    pub fn take_ended(&mut self) -> (r: Vec<String>)
        ensures
            r.deep_view() == old(self)@.ended,
            final(self)@ == (SessionsView { ended: Seq::empty(), ..old(self)@ }),
            final(self)@.wf(),
    {
        proof {
            use_type_invariant(&*self);
        }
        self.take_list()
    }
}

/// A session goes on where it is there and ends later.
pub proof fn lemma_going_on(live: Seq<(Seq<char>, u128)>, id: Seq<char>, now: u64)
    ensures
        known(going_on(live, now), id) == exists|k: int|
            0 <= k < live.len() && (#[trigger] live[k]).0 == id && live[k].1 > now,
    decreases live.len(),
{
    let stays = |s: (Seq<char>, u128)| s.1 > now;
    reveal(Seq::filter);
    if live.len() > 0 {
        let rest = live.drop_last();
        lemma_going_on(rest, id, now);
        let kept = rest.filter(stays);
        assert(going_on(rest, now) =~= kept);
        if known(going_on(live, now), id) {
            let i = choose|i: int|
                0 <= i < going_on(live, now).len() && (#[trigger] going_on(live, now)[i]).0 == id;
            if i < kept.len() {
                assert(kept[i].0 == id);
                let k = choose|k: int|
                    0 <= k < rest.len() && (#[trigger] rest[k]).0 == id && rest[k].1 > now;
                assert(live[k].0 == id && live[k].1 > now);
            } else {
                assert(live[live.len() - 1].0 == id);
            }
        }
        if exists|k: int| 0 <= k < live.len() && (#[trigger] live[k]).0 == id && live[k].1 > now {
            let k = choose|k: int|
                0 <= k < live.len() && (#[trigger] live[k]).0 == id && live[k].1 > now;
            if k < rest.len() {
                assert(rest[k].0 == id && rest[k].1 > now);
                let i = choose|i: int| 0 <= i < kept.len() && (#[trigger] kept[i]).0 == id;
                assert(going_on(live, now)[i].0 == id);
            } else {
                assert(going_on(live, now) =~= kept.push(live.last()));
                assert(going_on(live, now)[kept.len() as int].0 == id);
            }
        }
    }
}


/// A session that is there is found again unless it was the one left out.
proof fn lemma_without(live: Seq<(Seq<char>, u128)>, id: Seq<char>, other: Seq<char>)
    ensures
        !known(without(live, id), id),
        id != other ==> known(without(live, id), other) == known(live, other),
    decreases live.len(),
{
    reveal(Seq::filter);
    if live.len() > 0 {
        let rest = live.drop_last();
        lemma_without(rest, id, other);
        let kept = without(rest, id);
        if live.last().0 == id {
            assert(without(live, id) =~= kept);
        } else {
            assert(without(live, id) =~= kept.push(live.last()));
        }
        if known(without(live, id), id) {
            let i = choose|i: int|
                0 <= i < without(live, id).len() && (#[trigger] without(live, id)[i]).0 == id;
            assert(i < kept.len() && kept[i].0 == id);
        }
        if id != other {
            if known(live, other) {
                let k = choose|k: int| 0 <= k < live.len() && (#[trigger] live[k]).0 == other;
                if k < rest.len() {
                    assert(rest[k].0 == other);
                    let i = choose|i: int| 0 <= i < kept.len() && (#[trigger] kept[i]).0 == other;
                    assert(without(live, id)[i].0 == other);
                } else {
                    assert(without(live, id)[kept.len() as int].0 == other);
                }
            }
            if known(without(live, id), other) {
                let i = choose|i: int|
                    0 <= i < without(live, id).len() && (#[trigger] without(live, id)[i]).0
                        == other;
                if i < kept.len() {
                    assert(kept[i].0 == other);
                    let k = choose|k: int| 0 <= k < rest.len() && (#[trigger] rest[k]).0 == other;
                    assert(live[k].0 == other);
                } else {
                    assert(live[live.len() - 1].0 == other);
                }
            }
        }
    }
}

proof fn lemma_filter_keeps_ids(
    live: Seq<(Seq<char>, u128)>,
    keep: spec_fn((Seq<char>, u128)) -> bool,
)
    requires
        distinct_ids(live),
    ensures
        distinct_ids(live.filter(keep)),
        forall|i: int|
            0 <= i < live.filter(keep).len() ==> live.contains(#[trigger] live.filter(keep)[i]),
    decreases live.len(),
{
    reveal(Seq::filter);
    if live.len() > 0 {
        let rest = live.drop_last();
        lemma_filter_keeps_ids(rest, keep);
        let kept = rest.filter(keep);
        assert forall|i: int| 0 <= i < kept.len() implies (#[trigger] kept[i]).0 != live.last().0
            && live.contains(kept[i]) by {
            assert(rest.contains(kept[i]));
            let k = choose|k: int| 0 <= k < rest.len() && rest[k] == kept[i];
            assert(live[k] == kept[i]);
            assert(live[k].0 != live[live.len() - 1].0);
        }
        assert(live[live.len() - 1] == live.last());
        if keep(live.last()) {
            assert(live.filter(keep) =~= kept.push(live.last()));
        } else {
            assert(live.filter(keep) =~= kept);
        }
    }
}

proof fn lemma_ids_stay_distinct(before: SessionsView, id: Seq<char>, now: u64)
    requires
        before.wf(),
    ensures
        before.after_create(id, now).wf(),
        before.after_sweep(now).wf(),
        before.after_delete(id).wf(),
        distinct_ids(without(before.live, id)),
        over(before.live, now).no_duplicates(),
{
    let live = before.live;
    lemma_filter_keeps_ids(live, other_id(id));
    lemma_filter_keeps_ids(live, |s: (Seq<char>, u128)| s.1 > now);
    lemma_filter_keeps_ids(live, |s: (Seq<char>, u128)| s.1 <= now);
    lemma_without(live, id, id);
    let kept = without(live, id);
    assert forall|i: int| 0 <= i < kept.len() implies (#[trigger] kept[i]).0 != id by {
        if kept[i].0 == id {
            assert(known(kept, id));
        }
    }
    let done = live.filter(|s: (Seq<char>, u128)| s.1 <= now);
    assert forall|i: int, j: int|
        0 <= i < over(live, now).len() && 0 <= j < over(live, now).len() && i != j implies over(
        live,
        now,
    )[i] != over(live, now)[j] by {
        if i < j {
            assert(done[i].0 != done[j].0);
        } else {
            assert(done[j].0 != done[i].0);
        }
    }
}

/// No id is ever live twice, whatever is opened, looked at, logged out or timed
/// out; and so the ids that a look, a logout or a timer reports as ended name
/// each session once.
pub proof fn law_every_session_is_there_once(
    before: SessionsView,
    id: Seq<char>,
    now: u64,
)
    requires
        before.wf(),
    ensures
        before.after_create(id, now).wf(),
        before.after_sweep(now).wf(),
        before.after_delete(id).wf(),
        before.after_reap(id, now).wf(),
        over(before.live, now).no_duplicates(),
        forall|other: Seq<char>| #[trigger]
            over(before.live, now).contains(other) ==> !known(
                before.after_sweep(now).live,
                other,
            ),
        !known(before.after_delete(id).live, id),
{
    lemma_ids_stay_distinct(before, id, now);
    let live = before.live;
    let ends = |s: (Seq<char>, u128)| s.1 <= now;
    let done = live.filter(ends);
    lemma_filter_keeps_ids(live, ends);
    assert forall|other: Seq<char>| #[trigger] over(live, now).contains(other) implies !known(
        before.after_sweep(now).live,
        other,
    ) by {
        let i = choose|i: int| 0 <= i < over(live, now).len() && over(live, now)[i] == other;
        live.lemma_filter_pred(ends, i);
        assert(live.contains(done[i]));
        let k = choose|k: int| 0 <= k < live.len() && live[k] == done[i];
        lemma_going_on(live, other, now);
        if known(going_on(live, now), other) {
            let m = choose|m: int|
                0 <= m < live.len() && (#[trigger] live[m]).0 == other && live[m].1 > now;
            assert(live[k].0 == other && live[k].1 <= now);
            if k < m {
                assert(live[k].0 != live[m].0);
            } else {
                assert(live[m].0 != live[k].0);
            }
        }
    }
    lemma_without(live, id, id);
}

/// A new session is valid until exactly one lifetime later.
pub proof fn law_session_lives_its_lifetime(
    before: SessionsView,
    id: Seq<char>,
    created: u64,
    now: u64,
)
    requires
        before.wf(),
    ensures
        before.after_create(id, created).valid_at(id, now) <==> now < created + before.duration,
{
    let live = before.after_create(id, created).live;
    let kept = without(before.live, id);
    lemma_without(before.live, id, id);
    lemma_going_on(live, id, now);
    assert(live[kept.len() as int] == (id, (created + before.duration) as u128));
    if now < created + before.duration {
        assert(live[kept.len() as int].0 == id && live[kept.len() as int].1 > now);
    } else if exists|k: int| 0 <= k < live.len() && (#[trigger] live[k]).0 == id && live[k].1 > now {
        let k = choose|k: int|
            0 <= k < live.len() && (#[trigger] live[k]).0 == id && live[k].1 > now;
        assert(k < kept.len());
        assert(kept[k].0 == id);
    }
}

/// Looking at a session does not prolong it: whatever is asked in between, it
/// is valid later exactly if it would have been without the asking.
pub proof fn law_no_sliding_renewal(before: SessionsView, id: Seq<char>, asked: u64, now: u64)
    requires
        asked <= now,
    ensures
        before.after_sweep(asked).valid_at(id, now) == before.valid_at(id, now),
{
    let live = before.live;
    let swept = going_on(live, asked);
    lemma_going_on(live, id, now);
    lemma_going_on(swept, id, now);
    lemma_kept_are_live(live, asked);
    if before.valid_at(id, now) {
        let k = choose|k: int|
            0 <= k < live.len() && (#[trigger] live[k]).0 == id && live[k].1 > now;
        lemma_live_are_kept(live, asked, k);
        let i = choose|i: int| 0 <= i < swept.len() && #[trigger] swept[i] == live[k];
        assert(swept[i].0 == id && swept[i].1 > now);
    }
    if before.after_sweep(asked).valid_at(id, now) {
        let i = choose|i: int|
            0 <= i < swept.len() && (#[trigger] swept[i]).0 == id && swept[i].1 > now;
        let k = choose|k: int| 0 <= k < live.len() && #[trigger] live[k] == swept[i];
        assert(live[k].0 == id && live[k].1 > now);
    }
}

proof fn lemma_kept_are_live(live: Seq<(Seq<char>, u128)>, now: u64)
    ensures
        forall|i: int|
            0 <= i < going_on(live, now).len() ==> exists|k: int|
                0 <= k < live.len() && #[trigger] live[k] == #[trigger] going_on(live, now)[i],
    decreases live.len(),
{
    reveal(Seq::filter);
    if live.len() > 0 {
        let rest = live.drop_last();
        lemma_kept_are_live(rest, now);
        let kept = going_on(rest, now);
        assert forall|i: int| 0 <= i < going_on(live, now).len() implies exists|k: int|
            0 <= k < live.len() && #[trigger] live[k] == #[trigger] going_on(live, now)[i] by {
            if i < kept.len() {
                let k = choose|k: int| 0 <= k < rest.len() && #[trigger] rest[k] == kept[i];
                assert(live[k] == going_on(live, now)[i]);
            } else {
                assert(live[live.len() - 1] == going_on(live, now)[i]);
            }
        }
    }
}

/// What is left of the sessions after a look was there before, and goes on.
pub proof fn lemma_swept_go_on(live: Seq<(Seq<char>, u128)>, now: u64)
    ensures
        forall|i: int|
            0 <= i < going_on(live, now).len() ==> live.contains(#[trigger] going_on(live, now)[i])
                && going_on(live, now)[i].1 > now,
{
    lemma_kept_are_live(live, now);
    assert forall|i: int| 0 <= i < going_on(live, now).len() implies live.contains(
        #[trigger] going_on(live, now)[i],
    ) && going_on(live, now)[i].1 > now by {
        live.lemma_filter_pred(|s: (Seq<char>, u128)| s.1 > now, i);
    }
}

proof fn lemma_live_are_kept(live: Seq<(Seq<char>, u128)>, now: u64, k: int)
    requires
        0 <= k < live.len(),
        live[k].1 > now,
    ensures
        exists|i: int|
            0 <= i < going_on(live, now).len() && #[trigger] going_on(live, now)[i] == live[k],
    decreases live.len(),
{
    reveal(Seq::filter);
    let rest = live.drop_last();
    let kept = going_on(rest, now);
    if k < rest.len() {
        lemma_live_are_kept(rest, now, k);
        let i = choose|i: int| 0 <= i < kept.len() && #[trigger] kept[i] == rest[k];
        assert(going_on(live, now)[i] == live[k]);
    } else {
        assert(going_on(live, now) =~= kept.push(live.last()));
        assert(going_on(live, now)[kept.len() as int] == live[k]);
    }
}

/// A session that was logged out is valid at no time, and is reported as
/// ended; other sessions are as they were.
pub proof fn law_logout_ends_the_session(
    before: SessionsView,
    id: Seq<char>,
    other: Seq<char>,
    now: u64,
)
    ensures
        !before.after_delete(id).valid_at(id, now),
        known(before.live, id) ==> before.after_delete(id).ended == before.ended.push(id),
        id != other ==> before.after_delete(id).valid_at(other, now) == before.valid_at(other, now),
{
    let live = before.live;
    let after = before.after_delete(id).live;
    lemma_without(live, id, id);
    lemma_going_on(live, id, now);
    lemma_going_on(after, id, now);
    if before.after_delete(id).valid_at(id, now) {
        let k = choose|k: int|
            0 <= k < after.len() && (#[trigger] after[k]).0 == id && after[k].1 > now;
        assert(known(after, id));
    }
    if id != other && known(live, id) {
        lemma_going_on(live, other, now);
        lemma_going_on(after, other, now);
        lemma_without_keeps(live, id);
        if before.valid_at(other, now) {
            let k = choose|k: int|
                0 <= k < live.len() && (#[trigger] live[k]).0 == other && live[k].1 > now;
            let i = choose|i: int| 0 <= i < after.len() && #[trigger] after[i] == live[k];
            assert(after[i].0 == other && after[i].1 > now);
        }
        if before.after_delete(id).valid_at(other, now) {
            let i = choose|i: int|
                0 <= i < after.len() && (#[trigger] after[i]).0 == other && after[i].1 > now;
            let k = choose|k: int| 0 <= k < live.len() && #[trigger] live[k] == after[i];
            assert(live[k].0 == other && live[k].1 > now);
        }
    }
}

/// A session that nobody asks about ends all the same: a timer that goes off
/// one lifetime after the login, or later, reports it as ended. One that goes
/// off earlier changes nothing.
pub proof fn law_timer_ends_the_session(
    before: SessionsView,
    id: Seq<char>,
    created: u64,
    now: u64,
)
    requires
        before.wf(),
    ensures
        ({
            let opened = before.after_create(id, created);
            let after = opened.after_reap(id, now);
            if now < created + before.duration {
                after == opened
            } else {
                &&& !known(after.live, id)
                &&& after.ended == opened.ended.push(id)
            }
        }),
{
    let opened = before.after_create(id, created);
    assert(opened.live[without(before.live, id).len() as int].0 == id);
    law_session_lives_its_lifetime(before, id, created, now);
    lemma_without(opened.live, id, id);
}

/// A session that was logged out is not there any more.
pub proof fn lemma_logged_out_is_unknown(before: SessionsView, id: Seq<char>)
    ensures
        !known(before.after_delete(id).live, id),
{
    lemma_without(before.live, id, id);
}

proof fn lemma_without_keeps(live: Seq<(Seq<char>, u128)>, id: Seq<char>)
    ensures
        forall|k: int|
            0 <= k < live.len() && (#[trigger] live[k]).0 != id ==> exists|i: int|
                0 <= i < without(live, id).len() && #[trigger] without(live, id)[i] == live[k],
        forall|i: int|
            0 <= i < without(live, id).len() ==> exists|k: int|
                0 <= k < live.len() && #[trigger] live[k] == #[trigger] without(live, id)[i],
    decreases live.len(),
{
    reveal(Seq::filter);
    if live.len() > 0 {
        let rest = live.drop_last();
        lemma_without_keeps(rest, id);
        let kept = without(rest, id);
        assert forall|k: int| 0 <= k < live.len() && (#[trigger] live[k]).0 != id implies exists|
            i: int,
        |
            0 <= i < without(live, id).len() && #[trigger] without(live, id)[i] == live[k] by {
            if k < rest.len() {
                assert(rest[k].0 != id);
                let i = choose|i: int| 0 <= i < kept.len() && #[trigger] kept[i] == rest[k];
                assert(without(live, id)[i] == live[k]);
            } else {
                assert(without(live, id) =~= kept.push(live.last()));
                assert(without(live, id)[kept.len() as int] == live[k]);
            }
        }
        assert forall|i: int| 0 <= i < without(live, id).len() implies exists|k: int|
            0 <= k < live.len() && #[trigger] live[k] == #[trigger] without(live, id)[i] by {
            if i < kept.len() {
                let k = choose|k: int| 0 <= k < rest.len() && #[trigger] rest[k] == kept[i];
                assert(live[k] == without(live, id)[i]);
            } else {
                assert(live[live.len() - 1] == without(live, id)[i]);
            }
        }
    }
}

// Comparison and cookies.
/// `subtle::ConstantTimeEq::ct_eq` on byte slices: whether they are equal.
#[verifier::external_body]
fn constant_time_eq(a: &[u8], b: &[u8]) -> (r: bool)
    ensures
        r == (a@ == b@),
{
    a.ct_eq(b).into()
}

/// Equality that takes no time to tell how far two secrets agree; lengths are
/// compared first.
pub fn safe_equal(a: &[u8], b: &[u8]) -> (r: bool)
    ensures
        r == (a@ == b@),
{
    if a.len() != b.len() {
        return false;
    }
    constant_time_eq(a, b)
}

/// What is set on a browser that logged in.
pub open spec fn login_cookie_text(id: Seq<char>, max_age_seconds: nat, secure: bool) -> Seq<char> {
    let flag = if secure {
        " Secure;"@
    } else {
        ""@
    };
    "mousehole-session="@ + id + "; Max-Age="@ + text::decimal(max_age_seconds)
        + "; Path=/; HttpOnly;"@ + flag + " SameSite=Lax"@
}

pub fn login_cookie(id: &str, max_age_seconds: u64, secure: bool) -> (r: String)
    ensures
        r@ == login_cookie_text(id@, max_age_seconds as nat, secure),
{
    let flag = if secure {
        " Secure;"
    } else {
        ""
    };
    "mousehole-session=".to_owned().concat(id).concat("; Max-Age=").concat(
        &text::decimal_text(max_age_seconds),
    ).concat("; Path=/; HttpOnly;").concat(flag).concat(" SameSite=Lax")
}

/// What clears the cookie: an empty value that ends at once, and no other
/// attributes than the path.
pub fn logout_cookie() -> (r: String)
    ensures
        r@ == "mousehole-session=; Max-Age=0; Path=/"@,
{
    "mousehole-session=; Max-Age=0; Path=/".to_owned()
}

/// The value of a hexadecimal digit.
pub open spec fn hex_value(b: u8) -> Option<u8> {
    if 0x30 <= b <= 0x39 {
        Some((b - 0x30) as u8)
    } else if 0x41 <= b <= 0x46 {
        Some((b - 0x37) as u8)
    } else if 0x61 <= b <= 0x66 {
        Some((b - 0x57) as u8)
    } else {
        None
    }
}

/// The bytes, with each percent sign and two hexadecimal digits replaced by the
/// byte that they denote.
pub open spec fn percent_decoded(bytes: Seq<u8>) -> Seq<u8>
    decreases bytes.len(),
{
    if bytes.len() == 0 {
        bytes
    } else if bytes.len() >= 3 && bytes[0] == 0x25 && hex_value(bytes[1]) is Some && hex_value(
        bytes[2],
    ) is Some {
        seq![(hex_value(bytes[1])->0 * 16 + hex_value(bytes[2])->0) as u8] + percent_decoded(
            bytes.skip(3),
        )
    } else {
        seq![bytes[0]] + percent_decoded(bytes.skip(1))
    }
}

/// The text that a percent-encoded one denotes, if the decoded bytes are one.
pub open spec fn percent_text(s: Seq<char>) -> Option<Seq<char>> {
    let bytes = percent_decoded(vstd::utf8::encode_utf8(s));
    if vstd::utf8::valid_utf8(bytes) {
        Some(vstd::utf8::decode_utf8(bytes))
    } else {
        None
    }
}

/// `percent_encoding::percent_decode_str` and `decode_utf8`: every percent sign
/// before two hexadecimal digits is decoded with them, and the bytes that come
/// of it are the text, where they are UTF-8.
#[verifier::external_body]
pub(crate) fn percent_decode(s: &str) -> (r: Option<String>)
    ensures
        r.deep_view() == percent_text(s@),
{
    percent_encoding::percent_decode_str(s).decode_utf8().ok().map(|text| text.into_owned())
}

/// What a cookie's value means: without one pair of quotes around it, and
/// percent-decoded, unless that makes no text.
pub open spec fn cookie_value(value: Seq<char>) -> Seq<char> {
    let inner = if value.len() >= 2 && value.first() == '"' && value.last() == '"' {
        value.subrange(1, value.len() - 1)
    } else {
        value
    };
    match percent_text(inner) {
        Some(text) => text,
        None => inner,
    }
}

/// The value of the first of these pairs that has the session cookie's name.
pub open spec fn session_pair(pairs: Seq<Seq<char>>) -> Option<Seq<char>>
    decreases pairs.len(),
{
    if pairs.len() == 0 {
        None
    } else {
        match text::split_once(text::trimmed(pairs[0]), '=') {
            Some((name, value)) => if name == SESSION_COOKIE_NAME@ {
                Some(cookie_value(value))
            } else {
                session_pair(pairs.skip(1))
            },
            None => session_pair(pairs.skip(1)),
        }
    }
}

/// The session id that a Cookie header presents.
pub open spec fn session_id_in(header: Option<Seq<char>>) -> Option<Seq<char>> {
    match header {
        None => None,
        Some(h) => session_pair(text::split_at_each(h, ';')),
    }
}

fn read_cookie_value(value: &str) -> (r: String)
    ensures
        r@ == cookie_value(value@),
{
    let len: usize = value.unicode_len();
    let inner = if len >= 2 && value.get_char(0) == '"' && value.get_char(len - 1) == '"' {
        value.substring_char(1, len - 1)
    } else {
        value
    };
    match percent_decode(inner) {
        Some(text) => text,
        None => inner.to_owned(),
    }
}

/// The session id that a Cookie header presents: its pairs are split at `;`
/// and trimmed, and the first of the right name counts.
pub fn extract_session_id(cookie_header: Option<&str>) -> (r: Option<String>)
    ensures
        r.deep_view() == session_id_in(cookie_header.deep_view()),
{
    let header = match cookie_header {
        Some(h) => h,
        None => {
            return None;
        },
    };
    let pairs = text::split(header, ';');
    let ghost all = text::split_at_each(header@, ';');
    let mut i: usize = 0;
    assert(all.skip(0) =~= all);
    while i < pairs.len()
        invariant
            i <= pairs.len(),
            all == pairs.deep_view(),
            session_id_in(cookie_header.deep_view()) == session_pair(all),
            session_pair(all) == session_pair(all.skip(i as int)),
        decreases pairs.len() - i,
    {
        assert(all.skip(i as int)[0] == pairs@[i as int]@);
        assert(all.skip(i as int).skip(1) =~= all.skip(i + 1));
        if let Some((name, value)) = text::split_at_first(text::trim(&pairs[i]), '=') {
            if text::same_text(name, SESSION_COOKIE_NAME) {
                return Some(read_cookie_value(value));
            }
        }
        i = i + 1;
    }
    None
}

/// Whether the request presented a session cookie at all.
pub fn presented_session_cookie(cookie_header: Option<&str>) -> (r: bool)
    ensures
        r == (session_id_in(cookie_header.deep_view()) is Some),
{
    extract_session_id(cookie_header).is_some()
}


proof fn lemma_id_is_not_encoded(id: Seq<char>)
    requires
        is_id(id),
    ensures
        percent_text(id) == Some(id),
{
    let bytes = vstd::utf8::encode_utf8(id);
    assert(vstd::utf8::is_ascii_chars(id)) by {
        assert forall|i: int| 0 <= i < id.len() implies 0 <= #[trigger] id[i] as u32 <= 127 by {
            assert(is_id_char(id[i]));
        }
    }
    vstd::utf8::is_ascii_chars_encode_utf8(id);
    assert forall|i: int| 0 <= i < bytes.len() implies #[trigger] bytes[i] != 0x25 by {
        assert(is_id_char(id[i]));
        assert(bytes[i] as char == id[i]);
    }
    lemma_nothing_to_decode(bytes);
    vstd::utf8::encode_utf8_valid_utf8(id);
    vstd::utf8::encode_utf8_decode_utf8(id);
}

proof fn lemma_nothing_to_decode(bytes: Seq<u8>)
    requires
        forall|i: int| 0 <= i < bytes.len() ==> #[trigger] bytes[i] != 0x25,
    ensures
        percent_decoded(bytes) == bytes,
    decreases bytes.len(),
{
    if bytes.len() > 0 {
        assert(bytes[0] != 0x25);
        assert forall|i: int| 0 <= i < bytes.skip(1).len() implies #[trigger] bytes.skip(1)[i]
            != 0x25 by {
            assert(bytes.skip(1)[i] == bytes[i + 1]);
        }
        lemma_nothing_to_decode(bytes.skip(1));
        assert(seq![bytes[0]] + bytes.skip(1) =~= bytes);
    }
}

/// Pairs that hold no session cookie do not hide one behind them.
proof fn lemma_pairs_before(front: Seq<Seq<char>>, back: Seq<Seq<char>>)
    requires
        session_pair(front) is None,
    ensures
        session_pair(front + back) == session_pair(back),
    decreases front.len(),
{
    let all = front + back;
    if front.len() == 0 {
        assert(all =~= back);
    } else {
        assert(all[0] == front[0]);
        assert(all.skip(1) =~= front.skip(1) + back);
        lemma_pairs_before(front.skip(1), back);
    }
}

/// What a browser sends back of the session cookie.
pub open spec fn sent_back(id: Seq<char>) -> Seq<char> {
    "mousehole-session="@ + id
}

proof fn lemma_session_pair_of_id(id: Seq<char>, rest: Seq<Seq<char>>)
    requires
        is_id(id),
    ensures
        session_pair(seq![sent_back(id)] + rest) == Some(id),
        session_pair(seq![seq![' '] + sent_back(id)] + rest) == Some(id),
        !sent_back(id).contains(';'),
{
    reveal_strlit("mousehole-session=");
    reveal_strlit("mousehole-session");
    let sent = sent_back(id);
    let name = "mousehole-session"@;
    assert(name.len() == 17);
    assert forall|i: int| 0 <= i < sent.len() implies #[trigger] sent[i] != ';'
        && !text::is_white_space(sent[i]) by {
        if i >= 18 {
            assert(sent[i] == id[i - 18]);
            assert(is_id_char(id[i - 18]));
        } else {
            assert(sent[i] == "mousehole-session="@[i]);
        }
    }
    assert(!text::is_white_space(sent[0]) && !text::is_white_space(sent[sent.len() - 1]));
    text::lemma_trimmed_bare(sent);
    assert forall|i: int| 0 <= i < 17 implies #[trigger] sent[i] != '=' by {
        assert(sent[i] == "mousehole-session="@[i]);
    }
    assert(sent[17] == '=');
    assert(text::first_at(sent, '=', 17)) by {
        assert forall|i: int| 0 <= i < sent.take(17).len() implies sent.take(17)[i] != '=' by {
            assert(sent.take(17)[i] == sent[i]);
        }
    }
    text::lemma_first_at(sent, '=', 17);
    assert(sent.take(17) =~= name);
    assert(sent.skip(18) =~= id);
    if id.len() > 0 {
        assert(is_id_char(id[0]));
    }
    lemma_id_is_not_encoded(id);
    assert((seq![sent] + rest)[0] == sent);
    assert((seq![seq![' '] + sent] + rest)[0] == seq![' '] + sent);
}

/// A session cookie is read back as it was set, wherever it stands among other
/// cookies, as long as none before it has its name.
pub proof fn law_session_cookie_reads_back(id: Seq<char>, before: Seq<char>, after: Seq<char>)
    requires
        is_id(id),
    ensures
        session_id_in(Some(sent_back(id))) == Some(id),
        session_id_in(Some(sent_back(id) + seq![';'] + after)) == Some(id),
        session_id_in(Some(before)) is None ==> {
            &&& session_id_in(Some(before + seq![';'] + (seq![' '] + sent_back(id)))) == Some(id)
            &&& session_id_in(
                Some(before + seq![';'] + ((seq![' '] + sent_back(id)) + seq![';'] + after)),
            ) == Some(id)
        },
{
    let sent = sent_back(id);
    let spaced = seq![' '] + sent;
    let none = Seq::<Seq<char>>::empty();
    let tail = text::split_at_each(after, ';');
    let front = text::split_at_each(before, ';');
    lemma_session_pair_of_id(id, none);
    lemma_session_pair_of_id(id, tail);
    text::lemma_split_one(sent, ';');
    assert(seq![sent] + none =~= seq![sent]);
    text::lemma_split_around(sent, ';', after);
    assert(!spaced.contains(';')) by {
        assert forall|i: int| 0 <= i < spaced.len() implies spaced[i] != ';' by {
            if i > 0 {
                assert(spaced[i] == sent[i - 1]);
                assert(sent.contains(sent[i - 1]));
            }
        }
    }
    text::lemma_split_one(spaced, ';');
    assert(seq![spaced] + none =~= seq![spaced]);
    text::lemma_split_around(spaced, ';', after);
    text::lemma_split_around(before, ';', spaced);
    text::lemma_split_around(before, ';', spaced + seq![';'] + after);
    if session_id_in(Some(before)) is None {
        lemma_pairs_before(front, seq![spaced]);
        lemma_pairs_before(front, seq![spaced] + tail);
    }
}

/// A store remembers sessions for as many seconds as it was told, and holds none
/// at first.
pub proof fn law_new_store_is_empty(duration_seconds: u64, r: SessionStore)
    requires
        call_ensures(SessionStore::new, (duration_seconds,), r),
    ensures
        r@.live.len() == 0,
        r@.ended.len() == 0,
        r@.duration == duration_seconds * 1000 * 1000 * 1000,
{
}

/// A new session ends one lifetime from now; it ends no other, and no other
/// lasts longer or shorter for it.
pub proof fn law_new_session_leaves_the_others(
    store: &mut SessionStore,
    bytes: &[u8; 32],
    now: u64,
    id: String,
    other: Seq<char>,
    later: u64,
)
    requires
        call_ensures(SessionStore::create_with, (store, bytes, now), id),
        old(store)@.wf(),
    ensures
        final(store)@.valid_at(id@, later) <==> later < now + old(store)@.duration,
        other != id@ ==> final(store)@.valid_at(other, later) == old(store)@.valid_at(other, later),
        final(store)@.ended == old(store)@.ended,
        final(store)@.duration == old(store)@.duration,
{
    let before = old(store)@;
    law_session_lives_its_lifetime(before, id@, now, later);
    if other != id@ {
        let live = before.live;
        let after = final(store)@.live;
        let kept = without(live, id@);
        lemma_without_keeps(live, id@);
        lemma_going_on(live, other, later);
        lemma_going_on(after, other, later);
        if before.valid_at(other, later) {
            let k = choose|k: int|
                0 <= k < live.len() && (#[trigger] live[k]).0 == other && live[k].1 > later;
            let i = choose|i: int| 0 <= i < kept.len() && #[trigger] kept[i] == live[k];
            assert(after[i] == kept[i]);
        }
        if final(store)@.valid_at(other, later) {
            let i = choose|i: int|
                0 <= i < after.len() && (#[trigger] after[i]).0 == other && after[i].1 > later;
            assert(i < kept.len());
            let k = choose|k: int| 0 <= k < live.len() && #[trigger] live[k] == kept[i];
            assert(live[k].0 == other && live[k].1 > later);
        }
    }
}

/// A session is valid where it is live and ends later. Asking ends every session
/// that is over by then and reports it, and leaves all others as they are.
pub proof fn law_asking_ends_what_is_over(
    store: &mut SessionStore,
    id: &str,
    now: u64,
    k: int,
    r: bool,
)
    requires
        call_ensures(SessionStore::is_valid, (store, id, now), r),
        0 <= k < old(store)@.live.len(),
    ensures
        ({
            let before = old(store)@;
            let after = final(store)@;
            let entry = before.live[k];
            &&& r <==> exists|i: int|
                0 <= i < before.live.len() && (#[trigger] before.live[i]).0 == id@
                    && before.live[i].1 > now
            &&& entry.1 > now ==> after.live.contains(entry)
            &&& entry.1 <= now ==> after.ended.contains(entry.0)
            &&& before.ended.is_prefix_of(after.ended)
            &&& after.duration == before.duration
            &&& forall|i: int|
                0 <= i < after.live.len() ==> before.live.contains(#[trigger] after.live[i])
                    && after.live[i].1 > now
        }),
{
    let before = old(store)@;
    let live = before.live;
    let stays = |s: (Seq<char>, u128)| s.1 > now;
    let ends = |s: (Seq<char>, u128)| s.1 <= now;
    let name = |s: (Seq<char>, u128)| s.0;
    lemma_going_on(live, id@, now);
    lemma_kept_are_live(live, now);
    let entry = live[k];
    if entry.1 > now {
        lemma_live_are_kept(live, now, k);
    } else {
        live.lemma_filter_contains(ends, k);
        let done = live.filter(ends);
        let j = choose|j: int| 0 <= j < done.len() && done[j] == entry;
        assert(over(live, now)[j] == entry.0);
        assert(final(store)@.ended[before.ended.len() + j] == entry.0);
    }
    assert forall|i: int| 0 <= i < final(store)@.live.len() implies live.contains(
        #[trigger] final(store)@.live[i],
    ) && final(store)@.live[i].1 > now by {
        live.lemma_filter_pred(stays, i);
    }
}

/// A logout ends the session that it names, for good, and reports it once; an
/// unknown one changes nothing. Other sessions are as they were.
pub proof fn law_logout_ends_one_session(
    store: &mut SessionStore,
    id: &str,
    other: Seq<char>,
    later: u64,
)
    requires
        call_ensures(SessionStore::delete, (store, id), ()),
    ensures
        ({
            let before = old(store)@;
            let after = final(store)@;
            let known_before = exists|i: int|
                0 <= i < before.live.len() && (#[trigger] before.live[i]).0 == id@;
            &&& !after.valid_at(id@, later)
            &&& known_before ==> after.ended == before.ended.push(id@)
            &&& !known_before ==> after == before
            &&& other != id@ ==> after.valid_at(other, later) == before.valid_at(other, later)
        }),
{
    law_logout_ends_the_session(old(store)@, id@, other, later);
}

/// A timer ends its session where that is over by then, and changes nothing
/// where it is not, or not there.
pub proof fn law_timer_ends_what_is_over(store: &mut SessionStore, id: &str, now: u64)
    requires
        call_ensures(SessionStore::reap, (store, id, now), ()),
    ensures
        ({
            let before = old(store)@;
            let after = final(store)@;
            let there = exists|i: int|
                0 <= i < before.live.len() && (#[trigger] before.live[i]).0 == id@;
            let goes_on = exists|i: int|
                0 <= i < before.live.len() && (#[trigger] before.live[i]).0 == id@
                    && before.live[i].1 > now;
            &&& !there || goes_on ==> after == before
            &&& there && !goes_on ==> after.ended == before.ended.push(id@) && !known(
                after.live,
                id@,
            )
        }),
{
    lemma_going_on(old(store)@.live, id@, now);
    lemma_without(old(store)@.live, id@, id@);
}

/// What ended is reported once: taking it leaves nothing to be reported, and all
/// else as it is.
pub proof fn law_ended_is_reported_once(store: &mut SessionStore, r: Vec<String>)
    requires
        call_ensures(SessionStore::take_ended, (store,), r),
    ensures
        r.deep_view() == old(store)@.ended,
        final(store)@.ended.len() == 0,
        final(store)@.live == old(store)@.live,
        final(store)@.duration == old(store)@.duration,
{
}

/// Two secrets are the same where their bytes are.
pub proof fn law_secrets_agree_in_every_byte(a: &[u8], b: &[u8], r: bool)
    requires
        call_ensures(safe_equal, (a, b), r),
    ensures
        r <==> a@.len() == b@.len() && forall|i: int| 0 <= i < a@.len() ==> a@[i] == b@[i],
{
    if a@.len() == b@.len() && forall|i: int| 0 <= i < a@.len() ==> a@[i] == b@[i] {
        assert(a@ =~= b@);
    }
}

/// The cookie of a login carries the id and ends with the session; scripts
/// cannot read it, and it is kept to HTTPS where that was asked for. That of a
/// logout is empty and ends at once.
pub proof fn law_cookies_that_are_set(
    id: &str,
    max_age_seconds: u64,
    plain: String,
    secure: String,
    cleared: String,
)
    requires
        call_ensures(login_cookie, (id, max_age_seconds, false), plain),
        call_ensures(login_cookie, (id, max_age_seconds, true), secure),
        call_ensures(logout_cookie, (), cleared),
    ensures
        plain@ == "mousehole-session="@ + id@ + "; Max-Age="@ + text::decimal(
            max_age_seconds as nat,
        ) + "; Path=/; HttpOnly; SameSite=Lax"@,
        secure@ == "mousehole-session="@ + id@ + "; Max-Age="@ + text::decimal(
            max_age_seconds as nat,
        ) + "; Path=/; HttpOnly; Secure; SameSite=Lax"@,
        cleared@ == "mousehole-session=; Max-Age=0; Path=/"@,
{
    reveal_strlit("; Path=/; HttpOnly;");
    reveal_strlit(" Secure;");
    reveal_strlit("");
    reveal_strlit(" SameSite=Lax");
    reveal_strlit("; Path=/; HttpOnly; SameSite=Lax");
    reveal_strlit("; Path=/; HttpOnly; Secure; SameSite=Lax");
    let front = "mousehole-session="@ + id@ + "; Max-Age="@ + text::decimal(max_age_seconds as nat);
    assert(plain@ =~= front + "; Path=/; HttpOnly; SameSite=Lax"@);
    assert(secure@ =~= front + "; Path=/; HttpOnly; Secure; SameSite=Lax"@);
}

/// A Cookie header presents the value of the first of its pairs that has the
/// session's name, and none where no pair has it. No header presents none.
pub proof fn law_first_session_cookie_counts(
    header: &str,
    i: int,
    value: Seq<char>,
    r: Option<String>,
    none: Option<String>,
)
    requires
        call_ensures(extract_session_id, (Some(header),), r),
        call_ensures(extract_session_id, (None,), none),
    ensures
        none is None,
        ({
            let pairs = text::split_at_each(header@, ';');
            let named = |k: int|
                text::split_once(text::trimmed(pairs[k]), '=') matches Some((name, _)) && name
                    == "mousehole-session"@;
            &&& (forall|k: int| 0 <= k < pairs.len() ==> !#[trigger] named(k)) ==> r is None
            &&& 0 <= i < pairs.len() && text::split_once(text::trimmed(pairs[i]), '=') == Some(
                ("mousehole-session"@, value),
            ) && (forall|k: int| 0 <= k < i ==> !#[trigger] named(k)) ==> r.deep_view() == Some(
                cookie_value(value),
            )
        }),
{
    let pairs = text::split_at_each(header@, ';');
    let named = |k: int|
        text::split_once(text::trimmed(pairs[k]), '=') matches Some((name, _)) && name
            == "mousehole-session"@;
    if forall|k: int| 0 <= k < pairs.len() ==> !#[trigger] named(k) {
        assert forall|k: int| 0 <= k < pairs.len() implies !is_session_pair(
            #[trigger] pairs[k],
        ) by {
            assert(!named(k));
        }
        lemma_no_session_pair(pairs);
    }
    if 0 <= i < pairs.len() && text::split_once(text::trimmed(pairs[i]), '=') == Some(
        ("mousehole-session"@, value),
    ) && (forall|k: int| 0 <= k < i ==> !#[trigger] named(k)) {
        let front = pairs.take(i);
        assert forall|k: int| 0 <= k < front.len() implies !is_session_pair(
            #[trigger] front[k],
        ) by {
            assert(!named(k));
        }
        lemma_no_session_pair(front);
        lemma_pairs_before(front, pairs.skip(i));
        assert(front + pairs.skip(i) =~= pairs);
        assert(pairs.skip(i)[0] == pairs[i]);
    }
}

/// The pair has the session cookie's name.
spec fn is_session_pair(pair: Seq<char>) -> bool {
    text::split_once(text::trimmed(pair), '=') matches Some((name, _)) && name
        == "mousehole-session"@
}

proof fn lemma_no_session_pair(pairs: Seq<Seq<char>>)
    requires
        forall|k: int| 0 <= k < pairs.len() ==> !is_session_pair(#[trigger] pairs[k]),
    ensures
        session_pair(pairs) is None,
    decreases pairs.len(),
{
    if pairs.len() > 0 {
        assert(!is_session_pair(pairs[0]));
        let rest = pairs.skip(1);
        assert forall|k: int| 0 <= k < rest.len() implies !is_session_pair(#[trigger] rest[k]) by {
            assert(rest[k] == pairs[k + 1]);
        }
        lemma_no_session_pair(rest);
    }
}

/// A cookie's value is what is left without one pair of quotes around it,
/// percent-decoded where that makes a text.
pub proof fn law_cookie_value_is_decoded(value: Seq<char>)
    ensures
        ({
            let quoted = seq!['"'] + value + seq!['"'];
            &&& percent_text(value) is Some ==> cookie_value(quoted) == percent_text(value)->0
            &&& percent_text(value) is None ==> cookie_value(quoted) == value
            &&& value.len() > 0 && value[0] != '"' && percent_text(value) is Some ==> cookie_value(
                value,
            ) == percent_text(value)->0
            &&& value.len() > 0 && value[0] != '"' && percent_text(value) is None ==> cookie_value(
                value,
            ) == value
        }),
{
    let quoted = seq!['"'] + value + seq!['"'];
    assert(quoted.subrange(1, quoted.len() - 1) =~= value);
}

} // verus!
