//! The port scanner: the set of listening sockets the container side
//! knows, and the diff it computes on each snapshot of what the OS
//! reports. New records are announced upstream with one create frame
//! each; records that disappeared are reported closed and forgotten.

use vstd::prelude::*;
use vstd::utf8::encode_utf8;

use crate::codec::{create_message, spec_create_message, Function, Message, MessageView, Protocol};

verus! {

/// One listening socket: its port, its protocol, and the label of the
/// application holding it. Two records are the same socket only when all
/// three fields agree; the scanner treats a changed label on the same port
/// as a close followed by a reopen.
#[derive(Debug)]
pub struct ListenPort {
    pub port: u16,
    pub protocol: Protocol,
    pub app: String,
}

/// The mathematical value of a listening-socket record.
#[verifier::ext_equal]
pub struct ListenPortV {
    pub port: u16,
    pub protocol: Protocol,
    pub app: Seq<char>,
}

impl View for ListenPort {
    type V = ListenPortV;

    open spec fn view(&self) -> ListenPortV {
        ListenPortV { port: self.port, protocol: self.protocol, app: self.app@ }
    }
}

impl PartialEq for ListenPort {
    fn eq(&self, other: &ListenPort) -> (r: bool) {
        self.port == other.port && self.protocol == other.protocol && self.app == other.app
    }
}

impl vstd::std_specs::cmp::PartialEqSpecImpl for ListenPort {
    open spec fn obeys_eq_spec() -> bool {
        true
    }

    open spec fn eq_spec(&self, other: &ListenPort) -> bool {
        self@ == other@
    }
}

impl Clone for ListenPort {
    fn clone(&self) -> (r: ListenPort)
        ensures
            r@ == self@,
    {
        ListenPort { port: self.port, protocol: self.protocol, app: self.app.clone() }
    }
}

/// The mathematical values of a sequence of listening-socket records.
pub open spec fn ports_view(v: Seq<ListenPort>) -> Seq<ListenPortV> {
    Seq::new(v.len(), |i: int| v[i]@)
}

pub broadcast proof fn lemma_ports_view_len(v: Seq<ListenPort>)
    ensures
        #[trigger] ports_view(v).len() == v.len(),
{
}

pub broadcast proof fn lemma_ports_view_index(v: Seq<ListenPort>, i: int)
    requires
        0 <= i < v.len(),
    ensures
        #[trigger] ports_view(v)[i] == v[i]@,
{
}

/// Whether a record occurs in a sequence, compared by all three fields.
pub open spec fn spec_contains_record(s: Seq<ListenPortV>, p: ListenPortV) -> bool {
    exists|i: int| 0 <= i < s.len() && s[i] == p
}

/// Whether a record occurs in a list, compared by all three fields.
pub fn contains_record(list: &Vec<ListenPort>, item: &ListenPort) -> (r: bool)
    ensures
        r == spec_contains_record(ports_view(list@), item@),
{
    broadcast use {lemma_ports_view_len, lemma_ports_view_index};

    let mut i: usize = 0;
    while i < list.len()
        invariant
            i <= list@.len(),
            forall|k: int| 0 <= k < i ==> ports_view(list@)[k] != item@,
        decreases list@.len() - i,
    {
        if &list[i] == item {
            assert(ports_view(list@)[i as int] == item@);
            return true;
        }
        i = i + 1;
    }
    false
}

/// The create frame announcing a newly observed listening socket: the
/// record's port as the label, the create code matching its protocol, and
/// the application label's UTF-8 bytes as the body.
pub open spec fn spec_request_new_port(p: ListenPortV) -> MessageView {
    spec_create_message(
        p.port,
        if p.protocol is TCP {
            Function::CreateTcp
        } else {
            Function::CreateUdp
        },
        encode_utf8(p.app),
    )
}

/// The create frame announcing one newly observed listening socket.
pub fn request_new_port(port: &ListenPort) -> (r: Message)
    requires
        encode_utf8(port@.app).len() <= u32::MAX,
    ensures
        r@ == spec_request_new_port(port@),
{
    let function = match port.protocol {
        Protocol::TCP => Function::CreateTcp,
        Protocol::UDP => Function::CreateUdp,
    };
    let body = port.app.as_str().as_bytes_vec();
    create_message(port.port, function, body)
}

/// The records of a snapshot that are not yet known, first occurrences
/// only, in snapshot order: exactly the records the scanner announces on
/// one tick, walking the snapshot front to back and learning each new
/// record as it passes it.
pub open spec fn spec_new_records(known: Seq<ListenPortV>, now: Seq<ListenPortV>) -> Seq<
    ListenPortV,
>
    decreases now.len(),
{
    if now.len() == 0 {
        Seq::empty()
    } else if spec_contains_record(known, now[0]) {
        spec_new_records(known, now.drop_first())
    } else {
        seq![now[0]] + spec_new_records(known.push(now[0]), now.drop_first())
    }
}

/// The known records still listed in the snapshot, in known order.
pub open spec fn spec_kept(known: Seq<ListenPortV>, now: Seq<ListenPortV>) -> Seq<ListenPortV> {
    known.filter(|p: ListenPortV| spec_contains_record(now, p))
}

/// The known records no longer listed in the snapshot, in known order:
/// exactly the records the scanner reports closed on one tick.
pub open spec fn spec_closed(known: Seq<ListenPortV>, now: Seq<ListenPortV>) -> Seq<ListenPortV> {
    known.filter(|p: ListenPortV| !spec_contains_record(now, p))
}

/// A record of a sequence's tail occurs in the whole sequence.
proof fn lemma_contains_drop_first(s: Seq<ListenPortV>, p: ListenPortV)
    requires
        s.len() > 0,
        spec_contains_record(s.drop_first(), p),
    ensures
        spec_contains_record(s, p),
{
    let i = choose|i: int| 0 <= i < s.drop_first().len() && s.drop_first()[i] == p;
    assert(s[i + 1] == p);
}

/// Every announced record is listed in the snapshot it was announced from.
pub proof fn lemma_new_records_in_now(known: Seq<ListenPortV>, now: Seq<ListenPortV>)
    ensures
        forall|k: int|
            0 <= k < spec_new_records(known, now).len() ==> spec_contains_record(
                now,
                #[trigger] spec_new_records(known, now)[k],
            ),
    decreases now.len(),
{
    if now.len() == 0 {
    } else if spec_contains_record(known, now[0]) {
        lemma_new_records_in_now(known, now.drop_first());
        assert forall|k: int|
            0 <= k < spec_new_records(known, now).len() implies spec_contains_record(
            now,
            #[trigger] spec_new_records(known, now)[k],
        ) by {
            let p = spec_new_records(known, now)[k];
            assert(spec_new_records(known, now.drop_first())[k] == p);
            lemma_contains_drop_first(now, p);
        }
    } else {
        lemma_new_records_in_now(known.push(now[0]), now.drop_first());
        assert forall|k: int|
            0 <= k < spec_new_records(known, now).len() implies spec_contains_record(
            now,
            #[trigger] spec_new_records(known, now)[k],
        ) by {
            if k == 0 {
                assert(spec_new_records(known, now)[0] == now[0]);
            } else {
                let p = spec_new_records(known, now)[k];
                let rest = spec_new_records(known.push(now[0]), now.drop_first());
                assert(rest[k - 1] == p);
                lemma_contains_drop_first(now, p);
            }
        }
    }
}

/// No announced record was already known, and no record is announced
/// twice on one tick.
pub proof fn lemma_new_records_fresh(known: Seq<ListenPortV>, now: Seq<ListenPortV>)
    ensures
        forall|k: int|
            0 <= k < spec_new_records(known, now).len() ==> !spec_contains_record(
                known,
                #[trigger] spec_new_records(known, now)[k],
            ),
        spec_new_records(known, now).no_duplicates(),
    decreases now.len(),
{
    if now.len() == 0 {
    } else if spec_contains_record(known, now[0]) {
        lemma_new_records_fresh(known, now.drop_first());
    } else {
        lemma_new_records_fresh(known.push(now[0]), now.drop_first());
        let rest = spec_new_records(known.push(now[0]), now.drop_first());
        assert forall|k: int|
            0 <= k < spec_new_records(known, now).len() implies !spec_contains_record(
            known,
            #[trigger] spec_new_records(known, now)[k],
        ) by {
            if k > 0 {
                let p = rest[k - 1];
                assert(!spec_contains_record(known.push(now[0]), p));
                if spec_contains_record(known, p) {
                    let i = choose|i: int| 0 <= i < known.len() && known[i] == p;
                    assert(known.push(now[0])[i] == p);
                }
            }
        }
        assert forall|k: int| 0 < k < rest.len() + 1 implies spec_new_records(known, now)[k]
            != now[0] by {
            let p = rest[k - 1];
            assert(!spec_contains_record(known.push(now[0]), p));
            if p == now[0] {
                assert(known.push(now[0])[known.len() as int] == p);
            }
        }
        assert(spec_new_records(known, now).no_duplicates());
    }
}

/// Every record of the snapshot ends up known after a tick: it either was
/// known already and is kept, or it is announced.
pub proof fn lemma_new_records_complete(
    known: Seq<ListenPortV>,
    now: Seq<ListenPortV>,
    p: ListenPortV,
)
    requires
        spec_contains_record(now, p),
        !spec_contains_record(known, p),
    ensures
        spec_contains_record(spec_new_records(known, now), p),
    decreases now.len(),
{
    let witness = choose|i: int| 0 <= i < now.len() && now[i] == p;
    if now[0] == p {
        if spec_contains_record(known, now[0]) {
        } else {
            assert(spec_new_records(known, now)[0] == p);
        }
    } else {
        assert(now.drop_first()[witness - 1] == p);
        if spec_contains_record(known, now[0]) {
            lemma_new_records_complete(known, now.drop_first(), p);
            let i = choose|i: int|
                0 <= i < spec_new_records(known, now.drop_first()).len() && spec_new_records(
                    known,
                    now.drop_first(),
                )[i] == p;
        } else {
            if spec_contains_record(known.push(now[0]), p) {
                let i = choose|i: int|
                    0 <= i < known.push(now[0]).len() && known.push(now[0])[i] == p;
                assert(known[i] == p);
            }
            lemma_new_records_complete(known.push(now[0]), now.drop_first(), p);
            let rest = spec_new_records(known.push(now[0]), now.drop_first());
            let i = choose|i: int| 0 <= i < rest.len() && rest[i] == p;
            assert(spec_new_records(known, now)[i + 1] == p);
        }
    }
}

/// Filtering keeps exactly the elements that satisfy the predicate, keeps
/// them in order without inventing any, and so preserves distinctness;
/// every kept element occurs in the unfiltered sequence.
proof fn lemma_filter_structure(s: Seq<ListenPortV>, pred: spec_fn(ListenPortV) -> bool)
    ensures
        forall|k: int|
            0 <= k < s.filter(pred).len() ==> spec_contains_record(s, #[trigger] s.filter(pred)[k]),
        s.no_duplicates() ==> s.filter(pred).no_duplicates(),
        (forall|k: int| 0 <= k < s.len() ==> pred(#[trigger] s[k])) ==> s.filter(pred) == s,
        (forall|k: int| 0 <= k < s.len() ==> !pred(#[trigger] s[k])) ==> s.filter(pred)
            == Seq::<ListenPortV>::empty(),
    decreases s.len(),
{
    reveal(Seq::filter);
    if s.len() == 0 {
        assert(s.filter(pred) =~= Seq::<ListenPortV>::empty());
        if forall|k: int| 0 <= k < s.len() ==> pred(#[trigger] s[k]) {
            assert(s.filter(pred) =~= s);
        }
    } else {
        let head = s.drop_last();
        lemma_filter_structure(head, pred);
        assert(forall|k: int| 0 <= k < head.len() ==> head[k] == s[k]);
        assert forall|k: int|
            0 <= k < s.filter(pred).len() implies spec_contains_record(
            s,
            #[trigger] s.filter(pred)[k],
        ) by {
            if k < head.filter(pred).len() {
                let p = head.filter(pred)[k];
                let i = choose|i: int| 0 <= i < head.len() && head[i] == p;
                assert(s[i] == p);
            } else {
                assert(s[s.len() - 1] == s.filter(pred)[k]);
            }
        }
        if s.no_duplicates() {
            assert(head.no_duplicates());
            if pred(s.last()) {
                assert forall|k: int| 0 <= k < head.filter(pred).len() implies head.filter(pred)[k]
                    != s.last() by {
                    let p = head.filter(pred)[k];
                    let i = choose|i: int| 0 <= i < head.len() && head[i] == p;
                }
                assert(s.filter(pred).no_duplicates());
            }
        }
        if forall|k: int| 0 <= k < s.len() ==> pred(#[trigger] s[k]) {
            assert(s.filter(pred) =~= s);
        }
        if forall|k: int| 0 <= k < s.len() ==> !pred(#[trigger] s[k]) {
            assert(s.filter(pred) =~= Seq::<ListenPortV>::empty());
        }
    }
}

/// The create frames announcing a run of records, one per record, in order.
pub open spec fn announcements_of(records: Seq<ListenPortV>) -> Seq<MessageView> {
    Seq::new(records.len(), |i: int| spec_request_new_port(records[i]))
}

/// Nothing is announced from a snapshot whose every record is known.
proof fn lemma_new_records_none(known: Seq<ListenPortV>, now: Seq<ListenPortV>)
    requires
        forall|k: int| 0 <= k < now.len() ==> spec_contains_record(known, #[trigger] now[k]),
    ensures
        spec_new_records(known, now) == Seq::<ListenPortV>::empty(),
    decreases now.len(),
{
    if now.len() > 0 {
        assert(spec_contains_record(known, now[0]));
        assert(forall|k: int|
            0 <= k < now.drop_first().len() ==> #[trigger] now.drop_first()[k] == now[k + 1]);
        lemma_new_records_none(known, now.drop_first());
    }
}

/// One tick emits exactly the snapshot-minus-known difference and closes
/// exactly the known-minus-snapshot difference: as many create frames as
/// records the snapshot added, as many close reports as records it
/// dropped, and nothing else. The counts are over the two snapshots as
/// sets of records.
pub proof fn lemma_scan_diff_counts(known: Seq<ListenPortV>, now: Seq<ListenPortV>)
    requires
        known.no_duplicates(),
        now.no_duplicates(),
    ensures
        spec_new_records(known, now).len() == now.to_set().difference(known.to_set()).len(),
        spec_closed(known, now).len() == known.to_set().difference(now.to_set()).len(),
{
    broadcast use {
        vstd::seq_lib::group_seq_properties,
        vstd::set_lib::group_set_properties,
        vstd::set::group_set_axioms,
    };

    let fresh = spec_new_records(known, now);
    lemma_new_records_in_now(known, now);
    lemma_new_records_fresh(known, now);
    assert forall|p: ListenPortV| #[trigger]
        fresh.to_set().contains(p) implies now.to_set().difference(known.to_set()).contains(
        p,
    ) by {
        let k = choose|k: int| 0 <= k < fresh.len() && fresh[k] == p;
        assert(spec_contains_record(now, fresh[k]));
        let w = choose|w: int| 0 <= w < now.len() && now[w] == p;
        assert(!spec_contains_record(known, fresh[k]));
        if known.contains(p) {
            let v = choose|v: int| 0 <= v < known.len() && known[v] == p;
        }
    }
    assert forall|p: ListenPortV| #[trigger]
        now.to_set().difference(known.to_set()).contains(p) implies fresh.to_set().contains(
        p,
    ) by {
        let w = choose|w: int| 0 <= w < now.len() && now[w] == p;
        assert(spec_contains_record(now, p));
        if spec_contains_record(known, p) {
            let v = choose|v: int| 0 <= v < known.len() && known[v] == p;
            assert(known.contains(p));
        }
        lemma_new_records_complete(known, now, p);
        let k = choose|k: int| 0 <= k < fresh.len() && fresh[k] == p;
        assert(fresh.contains(p));
    }
    assert(fresh.to_set() =~= now.to_set().difference(known.to_set()));
    fresh.unique_seq_to_set();

    let gone = spec_closed(known, now);
    lemma_filter_structure(known, |p: ListenPortV| !spec_contains_record(now, p));
    assert(gone.no_duplicates());
    assert forall|p: ListenPortV| #[trigger]
        gone.to_set().contains(p) implies known.to_set().difference(now.to_set()).contains(
        p,
    ) by {
        let k = choose|k: int| 0 <= k < gone.len() && gone[k] == p;
        assert(spec_contains_record(known, gone[k]));
        let w = choose|w: int| 0 <= w < known.len() && known[w] == p;
        assert(!spec_contains_record(now, gone[k]));
        if now.contains(p) {
            let v = choose|v: int| 0 <= v < now.len() && now[v] == p;
        }
    }
    assert forall|p: ListenPortV| #[trigger]
        known.to_set().difference(now.to_set()).contains(p) implies gone.to_set().contains(
        p,
    ) by {
        let w = choose|w: int| 0 <= w < known.len() && known[w] == p;
        if spec_contains_record(now, p) {
            let v = choose|v: int| 0 <= v < now.len() && now[v] == p;
            assert(now.contains(p));
        }
        assert(!spec_contains_record(now, known[w]));
        assert(known.filter(|q: ListenPortV| !spec_contains_record(now, q)).contains(known[w]));
    }
    assert(gone.to_set() =~= known.to_set().difference(now.to_set()));
    gone.unique_seq_to_set();
}

/// After a tick, every known record is listed in the snapshot the tick
/// saw: the kept records by the filter that kept them, the announced ones
/// because they were read off the snapshot.
proof fn lemma_known_after_tick_in_now(known: Seq<ListenPortV>, now: Seq<ListenPortV>)
    ensures
        forall|k: int|
            0 <= k < (spec_kept(known, now) + spec_new_records(known, now)).len()
                ==> spec_contains_record(
                now,
                #[trigger] (spec_kept(known, now) + spec_new_records(known, now))[k],
            ),
{
    let kept = spec_kept(known, now);
    let fresh = spec_new_records(known, now);
    lemma_new_records_in_now(known, now);
    broadcast use vstd::seq_lib::group_filter_ensures;

    assert forall|k: int| 0 <= k < (kept + fresh).len() implies spec_contains_record(
        now,
        #[trigger] (kept + fresh)[k],
    ) by {
        if k < kept.len() {
            assert(kept[k] == known.filter(|p: ListenPortV| spec_contains_record(now, p))[k]);
        } else {
            assert((kept + fresh)[k] == fresh[k - kept.len()]);
        }
    }
}

/// After a tick, every record of the snapshot the tick saw is known: it
/// was either kept or announced.
proof fn lemma_now_known_after_tick(known: Seq<ListenPortV>, now: Seq<ListenPortV>)
    ensures
        forall|k: int|
            0 <= k < now.len() ==> spec_contains_record(
                spec_kept(known, now) + spec_new_records(known, now),
                #[trigger] now[k],
            ),
{
    let kept = spec_kept(known, now);
    let fresh = spec_new_records(known, now);
    broadcast use vstd::seq_lib::group_filter_ensures;

    assert forall|k: int| 0 <= k < now.len() implies spec_contains_record(
        kept + fresh,
        #[trigger] now[k],
    ) by {
        let p = now[k];
        if spec_contains_record(known, p) {
            let v = choose|v: int| 0 <= v < known.len() && known[v] == p;
            assert(spec_contains_record(now, known[v]));
            assert(known.filter(|q: ListenPortV| spec_contains_record(now, q)).contains(known[v]));
            let u = choose|u: int| 0 <= u < kept.len() && kept[u] == p;
            assert((kept + fresh)[u] == p);
        } else {
            lemma_new_records_complete(known, now, p);
            let u = choose|u: int| 0 <= u < fresh.len() && fresh[u] == p;
            assert((kept + fresh)[kept.len() + u] == p);
        }
    }
}

/// Repeated identical scans produce no emissions after the first: a tick
/// against the very snapshot that produced the known set announces
/// nothing, closes nothing, and leaves the known set unchanged.
pub proof fn lemma_rescan_idempotent(known: Seq<ListenPortV>, now: Seq<ListenPortV>)
    ensures
        ({
            let known2 = spec_kept(known, now) + spec_new_records(known, now);
            &&& spec_new_records(known2, now) == Seq::<ListenPortV>::empty()
            &&& spec_closed(known2, now) == Seq::<ListenPortV>::empty()
            &&& spec_kept(known2, now) == known2
        }),
{
    let known2 = spec_kept(known, now) + spec_new_records(known, now);
    lemma_known_after_tick_in_now(known, now);
    lemma_filter_structure(known2, |p: ListenPortV| spec_contains_record(now, p));
    lemma_filter_structure(known2, |p: ListenPortV| !spec_contains_record(now, p));
    lemma_now_known_after_tick(known, now);
    lemma_new_records_none(known2, now);
}

/// The scanner's state: the listening-socket records it currently knows.
/// The scanner alone mutates this set.
pub struct Scanner {
    pub known: Vec<ListenPort>,
}

impl View for Scanner {
    type V = Seq<ListenPortV>;

    open spec fn view(&self) -> Seq<ListenPortV> {
        ports_view(self.known@)
    }
}

impl Scanner {
    /// The scanner never holds the same record twice.
    pub open spec fn wf(self) -> bool {
        self@.no_duplicates()
    }

    /// A scanner that knows nothing yet: its first snapshot is announced
    /// in full.
    pub fn new() -> (r: Scanner)
        ensures
            r@ == Seq::<ListenPortV>::empty(),
            r.wf(),
    {
        let r = Scanner { known: Vec::new() };
        assert(r@ =~= Seq::<ListenPortV>::empty());
        r
    }

    /// Walk the snapshot and announce every record not yet known: one
    /// create frame per new record, in snapshot order, each learned as it
    /// is announced.
    fn announce_new(&mut self, now: &Vec<ListenPort>) -> (announcements: Vec<Message>)
        requires
            forall|i: int|
                0 <= i < now@.len() ==> encode_utf8(#[trigger] now@[i]@.app).len() <= u32::MAX,
        ensures
            final(self)@ == old(self)@ + spec_new_records(old(self)@, ports_view(now@)),
            crate::mux::msgs_view(announcements@) == announcements_of(
                spec_new_records(old(self)@, ports_view(now@)),
            ),
    {
        broadcast use {lemma_ports_view_len, lemma_ports_view_index};
        broadcast use {crate::mux::lemma_msgs_view_len, crate::mux::lemma_msgs_view_index};

        let ghost kv0 = old(self)@;
        let ghost nv = ports_view(now@);
        let mut announcements: Vec<Message> = Vec::new();
        let ghost mut newacc: Seq<ListenPortV> = Seq::empty();
        let mut i: usize = 0;
        assert(nv.skip(0) =~= nv);
        assert(self@ =~= kv0 + newacc);
        assert(crate::mux::msgs_view(announcements@) =~= announcements_of(newacc));
        while i < now.len()
            invariant
                i <= now@.len(),
                nv == ports_view(now@),
                forall|k: int|
                    0 <= k < now@.len() ==> encode_utf8(#[trigger] now@[k]@.app).len() <= u32::MAX,
                self@ == kv0 + newacc,
                crate::mux::msgs_view(announcements@) == announcements_of(newacc),
                spec_new_records(kv0, nv) == newacc + spec_new_records(self@, nv.skip(i as int)),
            decreases now@.len() - i,
        {
            broadcast use {lemma_ports_view_len, lemma_ports_view_index};
            broadcast use {crate::mux::lemma_msgs_view_len, crate::mux::lemma_msgs_view_index};

            let ghost before = self@;
            let ghost anns0 = announcements@;
            let ghost acc0 = newacc;
            assert(nv.skip(i as int).len() > 0);
            assert(nv.skip(i as int)[0] == nv[i as int]);
            assert(nv.skip(i as int).drop_first() =~= nv.skip(i as int + 1));
            if !contains_record(&self.known, &now[i]) {
                let m = request_new_port(&now[i]);
                announcements.push(m);
                self.known.push(now[i].clone());
                proof {
                    newacc = newacc.push(nv[i as int]);
                    assert(self@ =~= before.push(nv[i as int]));
                    assert(self@ =~= kv0 + newacc);
                    assert(announcements_of(acc0).len() == acc0.len());
                    assert(acc0.len() == anns0.len());
                    assert forall|k: int|
                        0 <= k < announcements@.len() implies crate::mux::msgs_view(
                        announcements@,
                    )[k] == announcements_of(newacc)[k] by {
                        if k < anns0.len() {
                            assert(announcements@[k] == anns0[k]);
                            assert(crate::mux::msgs_view(announcements@)[k] == announcements@[k]@);
                            assert(crate::mux::msgs_view(anns0)[k] == announcements_of(acc0)[k]);
                            assert(announcements_of(acc0)[k] == spec_request_new_port(acc0[k]));
                            assert(newacc[k] == acc0[k]);
                            assert(announcements_of(newacc)[k] == spec_request_new_port(newacc[k]));
                        } else {
                            assert(k == anns0.len());
                            assert(announcements@[k] == m);
                            assert(crate::mux::msgs_view(announcements@)[k] == m@);
                            assert(newacc[k] == nv[i as int]);
                            assert(announcements_of(newacc)[k] == spec_request_new_port(
                                nv[i as int],
                            ));
                            assert(m@ == spec_request_new_port(nv[i as int]));
                        }
                    }
                    assert(crate::mux::msgs_view(announcements@) =~= announcements_of(newacc));
                    assert(spec_new_records(before, nv.skip(i as int)) == seq![nv[i as int]]
                        + spec_new_records(before.push(nv[i as int]), nv.skip(i as int + 1)));
                    assert(newacc + spec_new_records(self@, nv.skip(i as int + 1)) =~= acc0
                        + spec_new_records(before, nv.skip(i as int)));
                }
            } else {
                assert(spec_new_records(before, nv.skip(i as int)) == spec_new_records(
                    before,
                    nv.skip(i as int + 1),
                ));
            }
            i = i + 1;
        }
        assert(nv.skip(now@.len() as int) =~= Seq::<ListenPortV>::empty());
        assert(spec_new_records(self@, Seq::empty()) =~= Seq::<ListenPortV>::empty());
        assert(spec_new_records(kv0, nv) =~= newacc);
        announcements
    }

    /// Split the known records by whether the snapshot still lists them:
    /// the survivors and the closed ones, both in known order.
    fn partition_known(list: &Vec<ListenPort>, now: &Vec<ListenPort>) -> (r: (
        Vec<ListenPort>,
        Vec<ListenPort>,
    ))
        ensures
            ports_view(r.0@) == spec_kept(ports_view(list@), ports_view(now@)),
            ports_view(r.1@) == spec_closed(ports_view(list@), ports_view(now@)),
    {
        broadcast use {lemma_ports_view_len, lemma_ports_view_index};

        let ghost grown = ports_view(list@);
        let ghost nv = ports_view(now@);
        let mut kept: Vec<ListenPort> = Vec::new();
        let mut closed: Vec<ListenPort> = Vec::new();
        let mut j: usize = 0;
        assert(grown.take(0) =~= Seq::<ListenPortV>::empty());
        proof {
            reveal(Seq::filter);
            assert(ports_view(kept@) =~= spec_kept(grown.take(0), nv));
            assert(ports_view(closed@) =~= spec_closed(grown.take(0), nv));
        }
        while j < list.len()
            invariant
                j <= list@.len(),
                grown == ports_view(list@),
                nv == ports_view(now@),
                ports_view(kept@) == spec_kept(grown.take(j as int), nv),
                ports_view(closed@) == spec_closed(grown.take(j as int), nv),
            decreases list@.len() - j,
        {
            broadcast use {lemma_ports_view_len, lemma_ports_view_index};

            proof {
                reveal(Seq::filter);
                assert(grown.take(j as int + 1).drop_last() =~= grown.take(j as int));
                assert(grown.take(j as int + 1).last() == grown[j as int]);
            }
            if contains_record(now, &list[j]) {
                kept.push(list[j].clone());
                assert(ports_view(kept@) =~= spec_kept(grown.take(j as int + 1), nv));
                assert(ports_view(closed@) =~= spec_closed(grown.take(j as int + 1), nv));
            } else {
                closed.push(list[j].clone());
                assert(ports_view(kept@) =~= spec_kept(grown.take(j as int + 1), nv));
                assert(ports_view(closed@) =~= spec_closed(grown.take(j as int + 1), nv));
            }
            j = j + 1;
        }
        assert(grown.take(list@.len() as int) =~= grown);
        (kept, closed)
    }

    /// One scan tick against a fresh snapshot: announce every record of
    /// the snapshot not yet known, one create frame each in snapshot
    /// order; report closed every known record the snapshot no longer
    /// lists, in known order; and keep exactly the records the snapshot
    /// lists, the surviving ones first.
    pub fn tick(&mut self, now: &Vec<ListenPort>) -> (r: (Vec<Message>, Vec<ListenPort>))
        requires
            old(self).wf(),
            forall|i: int|
                0 <= i < now@.len() ==> encode_utf8(#[trigger] now@[i]@.app).len() <= u32::MAX,
        ensures
            final(self).wf(),
            final(self)@ == spec_kept(old(self)@, ports_view(now@)) + spec_new_records(
                old(self)@,
                ports_view(now@),
            ),
            crate::mux::msgs_view(r.0@) == announcements_of(
                spec_new_records(old(self)@, ports_view(now@)),
            ),
            ports_view(r.1@) == spec_closed(old(self)@, ports_view(now@)),
    {
        broadcast use {lemma_ports_view_len, lemma_ports_view_index};

        let ghost kv0 = old(self)@;
        let ghost nv = ports_view(now@);
        let ghost newacc = spec_new_records(kv0, nv);
        let announcements = self.announce_new(now);
        let ghost grown = self@;
        let (kept, closed) = Self::partition_known(&self.known, now);
        self.known = kept;
        proof {
            Seq::<ListenPortV>::filter_distributes_over_add(
                kv0,
                newacc,
                |p: ListenPortV| spec_contains_record(nv, p),
            );
            Seq::<ListenPortV>::filter_distributes_over_add(
                kv0,
                newacc,
                |p: ListenPortV| !spec_contains_record(nv, p),
            );
            lemma_new_records_in_now(kv0, nv);
            lemma_filter_structure(newacc, |p: ListenPortV| spec_contains_record(nv, p));
            lemma_filter_structure(newacc, |p: ListenPortV| !spec_contains_record(nv, p));
            assert(spec_kept(grown, nv) =~= spec_kept(kv0, nv) + newacc);
            assert(spec_closed(grown, nv) =~= spec_closed(kv0, nv));
            // the new state has no duplicate records
            lemma_filter_structure(kv0, |p: ListenPortV| spec_contains_record(nv, p));
            lemma_new_records_fresh(kv0, nv);
            assert forall|a: int, b: int|
                0 <= a < b < self@.len() implies self@[a] != self@[b] by {
                let kl = spec_kept(kv0, nv).len() as int;
                if b < kl {
                } else if a >= kl {
                    assert(newacc[a - kl] != newacc[b - kl]);
                } else {
                    let p = self@[a];
                    assert(spec_contains_record(kv0, p));
                    assert(!spec_contains_record(kv0, newacc[b - kl]));
                }
            }
        }
        (announcements, closed)
    }
}

} // verus!
