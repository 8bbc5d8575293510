//! Command handlers: one per protocol verb, each working on the server state and
//! queueing its replies on the users' outbound queues.
use vstd::prelude::*;
use crate::channels::{Channel, Member, grows_by, joined_fresh, parted, destroyed, member_ids, same_members};
use crate::messages::{IRCMessage, MsgView, MAX_LINE, byte_len, join_words, serialise, strings_view};
use crate::numericreply::NumericReply;
use crate::server::{RecyclingAction, ServerData, queues_pushed};
use crate::users::{UserData, queue_view, same_but_queues};
use crate::util::{fold, is_channame, is_label, pieces, push_char, split_on, to_upper, upper, check_channame};

verus! {

/// The users in `b` are those of `a`, where user `id` has the messages `ms` appended to
/// its outbound queue.
pub open spec fn queues_appended(a: Seq<UserData>, b: Seq<UserData>, id: u128, ms: Seq<MsgView>) -> bool {
    &&& same_but_queues(a, b)
    &&& forall|i: int|
        0 <= i < a.len() ==> queue_view(#[trigger] b[i].queue@) == if a[i].id == id {
            queue_view(a[i].queue@) + ms
        } else {
            queue_view(a[i].queue@)
        }
}

proof fn lemma_append_one(a: Seq<UserData>, b: Seq<UserData>, c: Seq<UserData>, id: u128, ms: Seq<MsgView>, m: MsgView)
    requires
        queues_appended(a, b, id, ms),
        queues_pushed(b, c, set![id], m),
    ensures
        queues_appended(a, c, id, ms.push(m)),
{
    assert forall|i: int| 0 <= i < a.len() implies queue_view(#[trigger] c[i].queue@) == if a[i].id == id {
        queue_view(a[i].queue@) + ms.push(m)
    } else {
        queue_view(a[i].queue@)
    } by {
        assert(b[i].id == a[i].id);
        if a[i].id == id {
            assert(set![id].contains(b[i].id));
            assert(queue_view(a[i].queue@) + ms.push(m) =~= (queue_view(a[i].queue@) + ms).push(m));
        } else {
            assert(!set![id].contains(b[i].id));
        }
    }
}

/// After messages `ms` are appended to user `id`'s queue, that user's queue is its old
/// queue followed by `ms`.
proof fn lemma_appended_user(a: Seq<UserData>, b: Seq<UserData>, id: u128, ms: Seq<MsgView>)
    requires
        queues_appended(a, b, id, ms),
        forall|i: int, j: int|
            0 <= i < a.len() && 0 <= j < a.len() && i != j ==> (#[trigger] a[i]).id != (#[trigger] a[j]).id,
        exists|i: int| 0 <= i < a.len() && (#[trigger] a[i]).id == id,
    ensures
        queue_view(crate::server::user_of(b, id).queue@) == queue_view(crate::server::user_of(a, id).queue@) + ms,
{
    let i = choose|i: int| 0 <= i < a.len() && (#[trigger] a[i]).id == id;
    ServerData::lemma_user_of(a, i);
    assert forall|p: int, q: int| 0 <= p < b.len() && 0 <= q < b.len() && p != q implies (#[trigger] b[p]).id != (#[trigger] b[q]).id by {
        assert(a[p].id != a[q].id);
    }
    assert(b[i].id == id);
    ServerData::lemma_user_of(b, i);
}

/// Appending messages to user `id`'s queue leaves the queue of every other user.
proof fn lemma_appended_other(a: Seq<UserData>, b: Seq<UserData>, id: u128, ms: Seq<MsgView>, x: u128)
    requires
        queues_appended(a, b, id, ms),
        x != id,
        forall|i: int, j: int|
            0 <= i < a.len() && 0 <= j < a.len() && i != j ==> (#[trigger] a[i]).id != (#[trigger] a[j]).id,
        exists|i: int| 0 <= i < a.len() && (#[trigger] a[i]).id == x,
    ensures
        queue_view(crate::server::user_of(b, x).queue@) == queue_view(crate::server::user_of(a, x).queue@),
{
    let i = choose|i: int| 0 <= i < a.len() && (#[trigger] a[i]).id == x;
    ServerData::lemma_user_of(a, i);
    assert forall|p: int, q: int| 0 <= p < b.len() && 0 <= q < b.len() && p != q implies (#[trigger] b[p]).id != (#[trigger] b[q]).id by {
        assert(a[p].id != a[q].id);
    }
    assert(b[i].id == x);
    ServerData::lemma_user_of(b, i);
}

/// The JOIN message from `from` for channel `name`.
pub open spec fn join_view(from: Seq<char>, name: Seq<char>) -> MsgView {
    MsgView { prefix: Some(from), command: "JOIN"@, args: seq![name], suffix: None }
}

proof fn lemma_append_none(a: Seq<UserData>, id: u128)
    ensures
        queues_appended(a, a, id, Seq::empty()),
{
    assert forall|i: int| 0 <= i < a.len() implies queue_view(#[trigger] a[i].queue@) == if a[i].id == id {
        queue_view(a[i].queue@) + Seq::<MsgView>::empty()
    } else {
        queue_view(a[i].queue@)
    } by {
        assert(queue_view(a[i].queue@) + Seq::<MsgView>::empty() =~= queue_view(a[i].queue@));
    }
}

/// Whether a command is `name`, compared in upper case.
pub fn is_command(cmd: &IRCMessage, name: &str) -> (r: bool)
    ensures
        r == (upper(cmd.command@) == name@),
{
    let u = to_upper(cmd.command.as_str());
    let n = name.to_owned();
    u == n
}

/// Groups names, in order, into space-separated lines of at most `budget` bytes; a name
/// longer than `budget` stands on a line of its own.
pub fn batch_names(names: &Vec<String>, budget: usize) -> (r: Vec<String>)
    ensures
        join_words(strings_view(r@)) == join_words(strings_view(names@)),
        (forall|j: int| 0 <= j < names@.len() ==> byte_len((#[trigger] names@[j])@) <= budget)
            ==> forall|i: int| 0 <= i < r@.len() ==> byte_len((#[trigger] r@[i])@) <= budget,
        forall|i: int| 0 <= i < r@.len() ==> byte_len((#[trigger] r@[i])@) <= budget || strings_view(names@).contains(r@[i]@),
        budget == 0 ==> forall|i: int| 0 <= i < r@.len() ==> strings_view(names@).contains((#[trigger] r@[i])@),
        names@.len() > 0 ==> r@.len() > 0,
        names@.len() == 0 ==> r@.len() == 0,
{
    let ghost nv = strings_view(names@);
    let ghost fits = forall|j: int| 0 <= j < names@.len() ==> byte_len((#[trigger] names@[j])@) <= budget;
    let mut out: Vec<String> = Vec::new();
    if names.len() == 0 {
        assert(strings_view(out@) =~= nv);
        return out;
    }
    let mut buffer = names[0].clone();
    assert(nv.take(1) =~= seq![nv[0]]);
    assert(nv[0] == names@[0]@);
    let mut k: usize = 1;
    while k < names.len()
        invariant
            1 <= k <= names@.len(),
            nv == strings_view(names@),
            fits == (forall|j: int| 0 <= j < names@.len() ==> byte_len((#[trigger] names@[j])@) <= budget),
            join_words(strings_view(out@).push(buffer@)) == join_words(nv.take(k as int)),
            fits ==> byte_len(buffer@) <= budget,
            fits ==> forall|i: int| 0 <= i < out@.len() ==> byte_len((#[trigger] out@[i])@) <= budget,
            byte_len(buffer@) <= budget || nv.contains(buffer@),
            forall|i: int| 0 <= i < out@.len() ==> byte_len((#[trigger] out@[i])@) <= budget || nv.contains(out@[i]@),
            budget == 0 ==> nv.contains(buffer@),
            budget == 0 ==> forall|i: int| 0 <= i < out@.len() ==> nv.contains((#[trigger] out@[i])@),
        decreases names.len() - k,
    {
        let name = &names[k];
        let buf_len = crate::messages::utf8_len(buffer.as_str());
        let name_len = crate::messages::utf8_len(name.as_str());
        let ghost prev = strings_view(out@).push(buffer@);
        assert(nv.take(k as int + 1).drop_last() =~= nv.take(k as int));
        assert(nv.take(k as int + 1).last() == name@);
        if buf_len < budget && name_len <= budget - buf_len - 1 {
            let ghost ob = buffer@;
            push_char(&mut buffer, ' ');
            buffer.append(name.as_str());
            assert(buffer@ == ob + seq![' '] + name@);
            proof {
                crate::messages::lemma_byte_len_concat(ob, seq![' ']);
                crate::messages::lemma_byte_len_concat(ob + seq![' '], name@);
                crate::messages::lemma_byte_len_single(' ');
            }
            proof {
                let sv = strings_view(out@);
                if sv.len() == 0 {
                    assert(sv.push(buffer@) =~= seq![buffer@]);
                    assert(sv.push(ob) =~= seq![ob]);
                } else {
                    assert(sv.push(buffer@).drop_last() =~= sv);
                    assert(sv.push(ob).drop_last() =~= sv);
                }
                assert(join_words(sv.push(buffer@)) =~= join_words(sv.push(ob)) + seq![' '] + name@);
            }
        } else {
            let full = buffer;
            out.push(full);
            buffer = name.clone();
            proof {
                let sv = strings_view(out@);
                assert(sv =~= prev);
                assert(sv.push(buffer@).drop_last() =~= sv);
                assert(join_words(sv.push(buffer@)) == join_words(sv) + seq![' '] + name@);
                if fits {
                    assert(byte_len(names@[k as int]@) <= budget);
                }
                assert(nv[k as int] == name@);
            }
        }
        k = k + 1;
    }
    assert(nv.take(names@.len() as int) =~= nv);
    let ghost prev = strings_view(out@).push(buffer@);
    out.push(buffer);
    assert(strings_view(out@) =~= prev);
    out
}

/// The nickname prefix of a membership: `@` for operator, `+` for voice.
pub open spec fn prefix_seq(m: crate::modes::MembershipMode) -> Seq<char> {
    if m.op {
        seq!['@']
    } else if m.voice {
        seq!['+']
    } else {
        Seq::empty()
    }
}

/// The entry of a member in `RPL_NAMEREPLY`: its prefix and nickname.
pub open spec fn name_entry(srv: ServerData, m: Member) -> Seq<char> {
    prefix_seq(m.mode) + srv.user(m.id).nickname@
}

/// The `RPL_NAMEREPLY` entries of the members of channel `c`, in order.
pub open spec fn entries_of(srv: ServerData, c: Channel) -> Seq<Seq<char>> {
    c.members@.map_values(|m: Member| name_entry(srv, m))
}

/// Whether `t` is the entry of one member of channel `c`.
pub open spec fn is_entry_of(srv: ServerData, c: Channel, t: Seq<char>) -> bool {
    exists|q: int| 0 <= q < c.members@.len() && t == name_entry(srv, #[trigger] c.members@[q])
}

/// The `RPL_NAMEREPLY` header that NAMES sends to user `id` for channel `c`: from the
/// server, to the user's nickname, with `=` and the channel's name.
pub open spec fn names_header(srv: ServerData, id: u128, c: Channel) -> MsgView {
    crate::numericreply::numeric_view(
        NumericReply::RPL_NAMEREPLY,
        Some(srv.settings.name@),
        srv.user(id).nickname@,
        seq!["="@, c.name@],
        None,
    )
}

/// The bytes left for the names on a `RPL_NAMEREPLY` line, after the header and ` :`.
pub open spec fn names_budget(srv: ServerData, id: u128, c: Channel) -> int {
    MAX_LINE - 2 - byte_len(serialise(names_header(srv, id, c)))
}

/// The entries that fit on a line of `budget` bytes, in order.
pub open spec fn fit_entries(es: Seq<Seq<char>>, budget: int) -> Seq<Seq<char>>
    decreases es.len(),
{
    if es.len() == 0 {
        Seq::empty()
    } else if byte_len(es.last()) <= budget {
        fit_entries(es.drop_last(), budget).push(es.last())
    } else {
        fit_entries(es.drop_last(), budget)
    }
}

proof fn lemma_fit_none(es: Seq<Seq<char>>, b: int)
    requires
        b < 0,
    ensures
        fit_entries(es, b) == Seq::<Seq<char>>::empty(),
    decreases es.len(),
{
    if es.len() > 0 {
        lemma_fit_none(es.drop_last(), b);
    }
}

/// The messages that NAMES sends to user `id` for channel `c` were appended to its
/// queue between `a` and `b`: `RPL_NAMEREPLY` lines, each the header with the names as
/// trailing argument and each within 510 bytes, listing in order the entries of the
/// members that can fit on a line; then `RPL_ENDOFNAMES` for the channel.
pub open spec fn names_sent(srv: ServerData, a: Seq<UserData>, b: Seq<UserData>, id: u128, c: Channel) -> bool {
    exists|ms: Seq<MsgView>| #![trigger queues_appended(a, b, id, ms)]
        {
            let hdr = names_header(srv, id, c);
            &&& queues_appended(a, b, id, ms)
            &&& ms.len() > 0
            &&& ms.last() == crate::numericreply::numeric_view(
                NumericReply::RPL_ENDOFNAMES,
                Some(srv.settings.name@),
                srv.user(id).nickname@,
                seq![c.name@],
                Some("End of NAMES list."@),
            )
            &&& forall|j: int| 0 <= j < ms.len() - 1 ==> (#[trigger] ms[j]).prefix == hdr.prefix
                && ms[j].command == hdr.command && ms[j].args == hdr.args && ms[j].suffix is Some
            &&& forall|j: int| 0 <= j < ms.len() - 1 ==> byte_len(serialise(#[trigger] ms[j])) <= MAX_LINE
            &&& join_words(ms.take(ms.len() - 1).map_values(|m: MsgView| m.suffix->0))
                == join_words(fit_entries(entries_of(srv, c), names_budget(srv, id, c)))
        }
}

/// Whether user `id` may see channel `c`: it is not secret (`+s`), or the user is in it.
pub open spec fn visible_to(c: Channel, id: u128) -> bool {
    !crate::modes::Modes::has(c.modes@, 's') || c.has(id)
}

/// The names of at most `budget` bytes, in order; none when `open` is false.
fn fitting_names(names: &Vec<String>, open: bool, budget: usize) -> (r: Vec<String>)
    requires
        budget <= MAX_LINE,
    ensures
        strings_view(r@) == fit_entries(strings_view(names@), if open { budget as int } else { -1 }),
        forall|q: int| 0 <= q < r@.len() ==> byte_len((#[trigger] r@[q])@) <= budget,
        !open ==> r@.len() == 0,
{
    let ghost b = if open { budget as int } else { -1 };
    let ghost nv = strings_view(names@);
    let mut out: Vec<String> = Vec::new();
    let mut k: usize = 0;
    assert(nv.take(0) =~= Seq::<Seq<char>>::empty());
    while k < names.len()
        invariant
            k <= names@.len(),
            nv == strings_view(names@),
            b == if open { budget as int } else { -1 },
            budget <= MAX_LINE,
            strings_view(out@) == fit_entries(nv.take(k as int), b),
            forall|q: int| 0 <= q < out@.len() ==> byte_len((#[trigger] out@[q])@) <= budget,
            !open ==> out@.len() == 0,
        decreases names.len() - k,
    {
        let len = crate::messages::utf8_len(names[k].as_str());
        let ghost x = names@[k as int]@;
        assert(byte_len(x) >= 0);
        proof {
            assert(len == crate::messages::sat_len(byte_len(x)));
            if byte_len(x) <= usize::MAX as int {
                assert(len as int == byte_len(x));
            } else {
                assert(len == usize::MAX);
                assert(usize::MAX > MAX_LINE);
                assert(!(len as int <= budget));
            }
        }
        assert(len as int <= byte_len(x));
        assert(len as int <= budget ==> len as int == byte_len(x));
        assert(nv.take(k as int + 1).drop_last() =~= nv.take(k as int));
        assert(nv.take(k as int + 1).last() == x);
        assert(fit_entries(nv.take(k as int + 1), b) == if byte_len(x) <= b {
            fit_entries(nv.take(k as int), b).push(x)
        } else {
            fit_entries(nv.take(k as int), b)
        });
        assert(nv.take(k as int + 1).drop_last() =~= nv.take(k as int));
        assert(nv.take(k as int + 1).last() == names@[k as int]@);
        proof {
            crate::messages::lemma_utf8_len_bounds(names@[k as int]@);
        }
        if open && len <= budget {
            let ghost o = out@;
            out.push(names[k].clone());
            assert(strings_view(out@) =~= strings_view(o).push(names@[k as int]@));
        }
        k = k + 1;
    }
    assert(nv.take(names@.len() as int) =~= nv);
    out
}

impl ServerData {
    /// Appends the messages, in order, to the outbound queue of user `id`.
    pub fn send_all(&mut self, id: u128, msgs: &Vec<IRCMessage>)
        requires
            old(self).inv(),
        ensures
            final(self).inv(),
            final(self).channels == old(self).channels,
            final(self).settings == old(self).settings,
            final(self).opers == old(self).opers,
            final(self).signal_shutdown == old(self).signal_shutdown,
            forall|x: u128| #[trigger] final(self).users.has_id(x) == old(self).users.has_id(x),
            queues_appended(old(self).users.users@, final(self).users.users@, id, msgs@.map_values(|m: IRCMessage| m@)),
    {
        let ghost start = self.users.users@;
        let ghost all = msgs@.map_values(|m: IRCMessage| m@);
        proof {
            lemma_append_none(start, id);
            assert(all.take(0) =~= Seq::<MsgView>::empty());
        }
        let mut k: usize = 0;
        while k < msgs.len()
            invariant
                self.inv(),
                self.channels == old(self).channels,
                self.settings == old(self).settings,
                self.opers == old(self).opers,
                self.signal_shutdown == old(self).signal_shutdown,
                forall|x: u128| #[trigger] self.users.has_id(x) == old(self).users.has_id(x),
                start == old(self).users.users@,
                all == msgs@.map_values(|m: IRCMessage| m@),
                k <= msgs@.len(),
                queues_appended(start, self.users.users@, id, all.take(k as int)),
            decreases msgs.len() - k,
        {
            let ghost before = self.users.users@;
            let m = msgs[k].copy();
            let ghost mv = m@;
            self.send_to(id, m);
            proof {
                lemma_append_one(start, before, self.users.users@, id, all.take(k as int), mv);
                assert(all.take(k as int).push(mv) =~= all.take(k as int + 1));
            }
            k = k + 1;
        }
        assert(all.take(msgs@.len() as int) =~= all);
    }

    /// The nickname prefix and nickname of each member of channel `i`, in order.
    fn names_of(&self, i: usize) -> (r: Vec<String>)
        requires
            self.inv(),
            i < self.channels.chans@.len(),
        ensures
            r@.len() == self.channels.chans@[i as int].members@.len(),
            forall|k: int| 0 <= k < r@.len() ==> (#[trigger] r@[k])@ == name_entry(*self, self.channels.chans@[i as int].members@[k]),
    {
        let members = self.channels.chans[i].member_list();
        let mut out: Vec<String> = Vec::new();
        let mut k: usize = 0;
        while k < members.len()
            invariant
                self.inv(),
                i < self.channels.chans@.len(),
                members@.len() == self.channels.chans@[i as int].members@.len(),
                forall|j: int| 0 <= j < members@.len() ==> (#[trigger] members@[j]).id == self.channels.chans@[i as int].members@[j].id,
                k <= members@.len(),
                out@.len() == k,
                forall|j: int| 0 <= j < members@.len() ==> (#[trigger] members@[j]).mode.op == self.channels.chans@[i as int].members@[j].mode.op
                    && members@[j].mode.voice == (self.channels.chans@[i as int].members@[j].mode.voice && !self.channels.chans@[i as int].members@[j].mode.op),
                forall|j: int| 0 <= j < k ==> (#[trigger] out@[j])@ == name_entry(*self, self.channels.chans@[i as int].members@[j]),
            decreases members.len() - k,
        {
            let m = members[k];
            let mut name = String::new();
            match m.mode.prefix() {
                Some(c) => push_char(&mut name, c),
                None => {},
            }
            assert(self.users.has_id(self.channels.chans@[i as int].members@[k as int].id));
            let nick = self.nick_of(m.id);
            name.append(nick.as_str());
            assert(name@ == name_entry(*self, self.channels.chans@[i as int].members@[k as int]));
            out.push(name);
            k = k + 1;
        }
        out
    }

    /// Sends to user `id` the names of the members of channel `i`, batched in
    /// `RPL_NAMEREPLY` lines that fit the 510-byte line limit (a line holding one entry
    /// may exceed it only when that entry alone cannot fit), then `RPL_ENDOFNAMES`.
    pub fn send_names(&mut self, id: u128, i: usize)
        requires
            old(self).inv(),
            old(self).users.has_id(id),
            i < old(self).channels.chans@.len(),
        ensures
            final(self).inv(),
            final(self).channels == old(self).channels,
            final(self).settings == old(self).settings,
            final(self).opers == old(self).opers,
            final(self).signal_shutdown == old(self).signal_shutdown,
            forall|x: u128| #[trigger] final(self).users.has_id(x) == old(self).users.has_id(x),
            names_sent(*old(self), old(self).users.users@, final(self).users.users@, id, old(self).channels.chans@[i as int]),
    {
        let all_names = self.names_of(i);
        let nick = self.nick_of(id);
        let chan_name = self.channels.chans[i].name.clone();
        let mut base_args: Vec<String> = Vec::new();
        base_args.push("=".to_owned());
        base_args.push(chan_name.clone());
        let base = NumericReply::RPL_NAMEREPLY.into_prefixed_message(
            nick.as_str(),
            self.settings.name.as_str(),
            &base_args,
            None,
        );
        let base_len = base.protocol_len();
        let budget: usize = if base_len <= MAX_LINE - 2 {
            MAX_LINE - base_len - 2
        } else {
            0
        };
        let names = fitting_names(&all_names, base_len <= MAX_LINE - 2, budget);
        proof {
            assert(base@ == names_header(*old(self), id, old(self).channels.chans@[i as int])) by {
                assert(strings_view(base_args@) =~= seq!["="@, chan_name@]);
            }
            assert(strings_view(all_names@) =~= entries_of(*old(self), old(self).channels.chans@[i as int]));
        }
        let lines = batch_names(&names, budget);
        let ghost start = self.users.users@;
        proof {
            lemma_append_none(start, id);
        }
        let ghost mut ms: Seq<MsgView> = Seq::empty();
        let mut k: usize = 0;
        while k < lines.len()
            invariant
                self.inv(),
                self.users.has_id(id),
                self.channels == old(self).channels,
                self.settings == old(self).settings,
                self.opers == old(self).opers,
                self.signal_shutdown == old(self).signal_shutdown,
                start == old(self).users.users@,
                forall|x: u128| #[trigger] self.users.has_id(x) == old(self).users.has_id(x),
                k <= lines@.len(),
                queues_appended(start, self.users.users@, id, ms),
                ms.len() == k,
                forall|j: int| 0 <= j < ms.len() ==> (#[trigger] ms[j]).command
                    == crate::numericreply::three_digits(353),
                base@.command == crate::numericreply::three_digits(353),
                base@.suffix is None,
                base_len == crate::messages::sat_len(byte_len(serialise(base@))),
                budget == if base_len <= MAX_LINE - 2 { MAX_LINE - base_len - 2 } else { 0 },
                forall|q: int| 0 <= q < lines@.len() ==> byte_len((#[trigger] lines@[q])@) <= budget,
                join_words(strings_view(lines@)) == join_words(strings_view(names@)),
                forall|j: int| 0 <= j < ms.len() ==> (#[trigger] ms[j]).suffix == Some(lines@[j]@),
                base_len > MAX_LINE - 2 ==> names@.len() == 0 && lines@.len() == 0,
                base@ == names_header(*old(self), id, old(self).channels.chans@[i as int]),
                forall|j: int| 0 <= j < ms.len() ==> (#[trigger] ms[j]).prefix == base@.prefix
                    && ms[j].command == base@.command && ms[j].args == base@.args,
                forall|j: int| 0 <= j < ms.len() ==> byte_len(serialise(#[trigger] ms[j])) <= MAX_LINE,
            decreases lines.len() - k,
        {
            let mut m = base.copy();
            m.suffix = Some(lines[k].clone());
            proof {
                let line = lines@[k as int]@;
                assert(serialise(m@) =~= serialise(base@) + seq![' ', ':'] + line);
                crate::messages::lemma_byte_len_concat(serialise(base@) + seq![' ', ':'], line);
                crate::messages::lemma_byte_len_concat(serialise(base@), seq![' ', ':']);
                crate::messages::lemma_byte_len_concat(seq![' '], seq![':']);
                assert(seq![' '] + seq![':'] =~= seq![' ', ':']);
                crate::messages::lemma_byte_len_single(' ');
                crate::messages::lemma_byte_len_single(':');
                assert(base_len <= MAX_LINE - 2);
                assert(byte_len(serialise(m@)) <= MAX_LINE);
            }
            let ghost before = self.users.users@;
            let ghost mv = m@;
            self.send_to(id, m);
            proof {
                lemma_append_one(start, before, self.users.users@, id, ms, mv);
                ms = ms.push(mv);
            }
            k = k + 1;
        }
        let mut end_args: Vec<String> = Vec::new();
        end_args.push(chan_name);
        let end = NumericReply::RPL_ENDOFNAMES.into_prefixed_message(
            nick.as_str(),
            self.settings.name.as_str(),
            &end_args,
            Some("End of NAMES list.".to_owned()),
        );
        let ghost before = self.users.users@;
        let ghost ev = end@;
        self.send_to(id, end);
        proof {
            lemma_append_one(start, before, self.users.users@, id, ms, ev);
            let ms0 = ms;
            ms = ms.push(ev);
            assert(ms.take(ms.len() - 1) =~= ms0);
            assert(ms0.map_values(|m: MsgView| m.suffix->0) =~= strings_view(lines@));
            let b = if base_len <= MAX_LINE - 2 { budget as int } else { -1 };
            let nb = names_budget(*old(self), id, old(self).channels.chans@[i as int]);
            if base_len <= MAX_LINE - 2 {
                assert(b == nb);
            } else {
                lemma_fit_none(strings_view(all_names@), b);
                lemma_fit_none(strings_view(all_names@), nb);
            }
            assert(ev == crate::numericreply::numeric_view(
                NumericReply::RPL_ENDOFNAMES,
                Some(old(self).settings.name@),
                old(self).user(id).nickname@,
                seq![old(self).channels.chans@[i as int].name@],
                Some("End of NAMES list."@),
            )) by {
                assert(strings_view(end_args@) =~= seq![chan_name@]);
            }
        }
    }
}

proof fn lemma_join_keeps_inv(a: ServerData, b: ServerData, id: u128)
    requires
        a.inv(),
        a.users.has_id(id),
        b.users == a.users,
        b.channels.wf(),
        grows_by(a.channels.chans@, b.channels.chans@, id),
    ensures
        b.inv(),
{
    let ac = a.channels.chans@;
    let bc = b.channels.chans@;
    assert forall|i: int| 0 <= i < bc.len() implies (#[trigger] bc[i]).members@.len() > 0 by {
        if i < ac.len() {
            assert(ac[i].members@.len() > 0);
        }
    }
    assert forall|i: int, j: int| 0 <= i < bc.len() && 0 <= j < bc[i].members@.len() implies b.users.has_id(
        #[trigger] bc[i].members@[j].id) by {
        let x = bc[i].members@[j].id;
        if i < ac.len() {
            assert(bc[i].has(x));
            if x != id {
                assert(ac[i].has(x));
                let j2 = choose|j2: int| 0 <= j2 < ac[i].members@.len() && (#[trigger] ac[i].members@[j2]).id == x;
                assert(a.users.has_id(ac[i].members@[j2].id));
            }
        } else {
            assert(bc[i].members@[j].id == id);
        }
    }
}

proof fn lemma_grows_keeps_member(a: Seq<Channel>, b: Seq<Channel>, id: u128, key: Seq<char>, x: u128)
    requires
        grows_by(a, b, id),
        exists|i: int| 0 <= i < a.len() && (#[trigger] a[i]).key() == key && a[i].has(x),
    ensures
        exists|i: int| 0 <= i < b.len() && (#[trigger] b[i]).key() == key && b[i].has(x),
{
    let i = choose|i: int| 0 <= i < a.len() && (#[trigger] a[i]).key() == key && a[i].has(x);
    assert(b[i].key() == key && b[i].has(x));
}

proof fn lemma_part_keeps_inv(a: ServerData, b: ServerData, c: ServerData, id: u128, key: Seq<char>, r: bool)
    requires
        a.inv(),
        b.users == a.users,
        c.users == a.users,
        b.channels.wf(),
        c.channels.wf(),
        parted(a.channels.chans@, b.channels.chans@, id, key),
        destroyed(b.channels.chans@, c.channels.chans@, key, r),
    ensures
        c.inv(),
        forall|i: int| 0 <= i < c.channels.chans@.len() ==> b.channels.chans@.contains(#[trigger] c.channels.chans@[i]),
{
    let ac = a.channels.chans@;
    let bc = b.channels.chans@;
    let cc = c.channels.chans@;
    // every channel after the part keeps only members it had
    assert forall|k: int, j: int| 0 <= k < bc.len() && 0 <= j < bc[k].members@.len() implies a.users.has_id(
        #[trigger] bc[k].members@[j].id) by {
        let m = bc[k].members@[j];
        if ac[k].key() != key {
            assert(bc[k] == ac[k]);
        } else {
            assert(bc[k].members@.contains(m));
            assert(ac[k].members@.contains(m));
            let j2 = choose|j2: int| 0 <= j2 < ac[k].members@.len() && ac[k].members@[j2] == m;
            assert(a.users.has_id(ac[k].members@[j2].id));
        }
    }
    let kk = if r {
        choose|k: int| 0 <= k < bc.len() && (#[trigger] bc[k]).key() == key && cc == bc.remove(k)
    } else {
        0
    };
    assert forall|i: int| 0 <= i < cc.len() implies #[trigger] cc[i] == bc[if r && i >= kk { i + 1 } else { i }] by {}
    assert forall|i: int| 0 <= i < cc.len() implies bc.contains(#[trigger] cc[i]) by {
        let i2 = if r && i >= kk { i + 1 } else { i };
        assert(cc[i] == bc[i2]);
    }
    assert forall|i: int| 0 <= i < cc.len() implies (#[trigger] cc[i]).members@.len() > 0 by {
        let i2 = if r && i >= kk { i + 1 } else { i };
        assert(cc[i] == bc[i2]);
        if bc[i2].key() != key {
            assert(bc[i2] == ac[i2]);
            assert(ac[i2].members@.len() > 0);
        } else if r {
            assert(bc[kk].key() == key);
            assert(i2 != kk);
            assert(bc[i2].key() != bc[kk].key());
        } else {
            if bc[i2].members@.len() == 0 {
                assert(bc[i2].key() == key);
            }
        }
    }
    assert forall|i: int, j: int| 0 <= i < cc.len() && 0 <= j < cc[i].members@.len() implies c.users.has_id(
        #[trigger] cc[i].members@[j].id) by {
        let i2 = if r && i >= kk { i + 1 } else { i };
        assert(cc[i] == bc[i2]);
        assert(a.users.has_id(bc[i2].members@[j].id));
    }
}

/// JOIN: joins each channel of a comma-separated list, creating it if needed, tells
/// its members (the joiner included), and sends the joiner the topic and the names.
pub struct CmdJoin;

impl CmdJoin {
    #[verifier::rlimit(80)]
    pub fn handle_command(&self, srv: &mut ServerData, id: u128, cmd: &IRCMessage) -> (r: (bool, RecyclingAction))
        requires
            old(srv).inv(),
            old(srv).users.has_id(id),
        ensures
            join_done(*old(srv), *final(srv), id, *cmd, r),
    {
        if !is_command(cmd, "JOIN") {
            return (false, RecyclingAction::Nothing);
        }
        if cmd.args.len() == 0 {
            send_needmoreparams(srv, id, "JOIN");
            return (true, RecyclingAction::Nothing);
        }
        let names = split_on(cmd.args[0].as_str(), ',');
        let ghost ps = pieces(cmd.args@[0]@, ',');
        let mut k: usize = 0;
        while k < names.len()
            invariant
                srv.inv(),
                srv.users.has_id(id),
                k <= names@.len(),
                names@.map_values(|x: String| x@) == ps,
                ps == pieces(cmd.args@[0]@, ','),
                forall|j: int| 0 <= j < k && is_channame(#[trigger] ps[j]) ==> srv.channels.is_member(fold(ps[j]), id),
                k == 0 ==> srv.channels == old(srv).channels && srv.users == old(srv).users,
                k == 1 && ps.len() == 1 && !is_channame(ps[0]) ==> srv.channels == old(srv).channels
                    && exists|m: MsgView| queues_pushed(old(srv).users.users@, srv.users.users@, set![id], m)
                        && m.command == crate::numericreply::three_digits(476) && m.args == seq![old(srv).user(id).nickname@, ps[0]],
                k == 1 && ps.len() == 1 && is_channame(ps[0]) ==> {
                    &&& !old(srv).channels.has_key(fold(ps[0])) ==> crate::channels::joined_fresh(
                        old(srv).channels.chans@,
                        srv.channels.chans@,
                        id,
                        ps[0],
                    )
                    &&& old(srv).channels.is_member(fold(ps[0]), id) ==> srv.channels.chans@ == old(srv).channels.chans@
                    &&& exists|ms: Seq<MsgView>| #![trigger queue_view(old(srv).user(id).queue@) + ms]
                        queue_view((*srv).user(id).queue@) == queue_view(old(srv).user(id).queue@) + ms
                        && ms.len() >= 3 && ms[0].command == "JOIN"@ && ms[0].args == seq![ps[0]]
                        && ms[0].prefix == Some(old(srv).user(id).fullname())
                        && (ms[1].command == crate::numericreply::three_digits(331) || ms[1].command == crate::numericreply::three_digits(332))
                    &&& forall|x: u128| x != id && old(srv).users.has_id(x) ==> #[trigger] queue_view((*srv).user(x).queue@)
                        == if (*srv).channels.is_member(fold(ps[0]), x) {
                        queue_view(old(srv).user(x).queue@).push(join_view(old(srv).user(id).fullname(), ps[0]))
                    } else {
                        queue_view(old(srv).user(x).queue@)
                    }
                },
            decreases names.len() - k,
        {
            let name = &names[k];
            assert(ps[k as int] == name@);
            if !check_channame(name.as_str()) {
                let a = one_arg(name.clone());
                let txt = Some("Bad Channel name.".to_owned());
                let ghost b0 = *srv;
                let ghost mv = crate::numericreply::numeric_view(NumericReply::ERR_BADCHANMASK, Some(srv.settings.name@), srv.user(id).nickname@, strings_view(a@), crate::messages::opt_view(txt));
                srv.send_numeric(id, NumericReply::ERR_BADCHANMASK, a, txt);
                assert(queues_pushed(b0.users.users@, srv.users.users@, set![id], mv));
                assert(mv.args =~= seq![b0.user(id).nickname@, name@]);
            } else {
                let ghost before = *srv;
                let ghost pre = srv.channels;
                srv.channels.join_create(id, name.as_str());
                let ghost post = srv.channels;
                proof {
                    lemma_join_keeps_inv(before, *srv, id);
                    assert forall|j: int| 0 <= j < k && is_channame(#[trigger] ps[j]) implies srv.channels.is_member(fold(ps[j]), id) by {
                        lemma_grows_keeps_member(before.channels.chans@, srv.channels.chans@, id, fold(ps[j]), id);
                    }
                }
                let ghost joined = srv.channels;
                match srv.channels.index_of(name.as_str()) {
                    Some(i) => {
                        let ids = srv.channels.chans[i].member_ids();
                        proof {
                            let ms = srv.channels.chans@[i as int].members@;
                            assert(srv.channels.chans@[i as int].wf());
                            assert forall|a: int, b: int| 0 <= a < ids@.len() && 0 <= b < ids@.len() && a != b implies ids@[a] != ids@[b] by {
                                assert(ids@[a] == ms[a].id);
                                assert(ids@[b] == ms[b].id);
                            }
                        }
                        let jargs = one_arg(name.clone());
                        let join_msg = IRCMessage {
                            prefix: Some(srv.fullname_of(id)),
                            command: "JOIN".to_owned(),
                            args: jargs,
                            suffix: None,
                        };
                        let ghost s1 = *srv;
                        proof {
                            assert(srv.channels.chans@[i as int].has(id));
                            let w = choose|w: int| 0 <= w < srv.channels.chans@[i as int].members@.len() && (#[trigger] srv.channels.chans@[i as int].members@[w]).id == id;
                            assert(ids@[w] == id);
                            assert(ids@.contains(id));
                        }
                        srv.send_to_ids(&ids, &join_msg, None);
                        let ghost s2 = *srv;
                        let topic = srv.channels.chans[i].topic.clone();
                        let targs = one_arg(name.clone());
                        let ghost m1: MsgView;
                        if topic.as_str().unicode_len() == 0 {
                            let txt = Some("No topic is set.".to_owned());
                            proof {
                                m1 = crate::numericreply::numeric_view(NumericReply::RPL_NOTOPIC, Some(srv.settings.name@), srv.user(id).nickname@, strings_view(targs@), crate::messages::opt_view(txt));
                            }
                            srv.send_numeric(id, NumericReply::RPL_NOTOPIC, targs, txt);
                        } else {
                            let txt = Some(topic);
                            proof {
                                m1 = crate::numericreply::numeric_view(NumericReply::RPL_TOPIC, Some(srv.settings.name@), srv.user(id).nickname@, strings_view(targs@), crate::messages::opt_view(txt));
                            }
                            srv.send_numeric(id, NumericReply::RPL_TOPIC, targs, txt);
                        }
                        let ghost s3 = *srv;
                        srv.send_names(id, i);
                        proof {
                            let us1 = s1.users.users@;
                            assert(Set::new(|x: u128| ids@.contains(x) && None::<u128> != Some(x)).contains(id));
                            ServerData::lemma_pushed_user(us1, s2.users.users@, Set::new(|x: u128| ids@.contains(x) && None::<u128> != Some(x)), join_msg@, id);
                            ServerData::lemma_pushed_user(s2.users.users@, s3.users.users@, set![id], m1, id);
                            let ms2 = choose|ms2: Seq<MsgView>| queues_appended(s3.users.users@, srv.users.users@, id, ms2) && ms2.len() > 0;
                            lemma_appended_user(s3.users.users@, srv.users.users@, id, ms2);
                            let ms = seq![join_msg@, m1] + ms2;
                            assert(queue_view(srv.user(id).queue@) =~= queue_view(s1.user(id).queue@) + ms);
                            assert(join_msg@.args =~= seq![name@]);
                            if k == 0 {
                                assert(s1.users == old(srv).users);
                                assert(queue_view(srv.user(id).queue@) == queue_view(old(srv).user(id).queue@) + ms);
                                assert(ms[0] == join_msg@ && ms[1] == m1);
                                assert(ms.len() >= 3);
                                assert(ms[0].command == "JOIN"@);
                                assert(ms[0].args == seq![ps[0]]);
                                assert(ms[0].prefix == Some(old(srv).user(id).fullname()));
                                assert(ms[1].command == crate::numericreply::three_digits(331) || ms[1].command == crate::numericreply::three_digits(332));
                                assert forall|x: u128| x != id && old(srv).users.has_id(x) implies #[trigger] queue_view(srv.user(x).queue@)
                                    == if srv.channels.is_member(fold(ps[0]), x) {
                                    queue_view(old(srv).user(x).queue@).push(join_view(old(srv).user(id).fullname(), ps[0]))
                                } else {
                                    queue_view(old(srv).user(x).queue@)
                                } by {
                                    assert(s1.users.has_id(x));
                                    ServerData::lemma_pushed_user(us1, s2.users.users@, Set::new(|y: u128| ids@.contains(y) && None::<u128> != Some(y)), join_msg@, x);
                                    ServerData::lemma_pushed_user(s2.users.users@, s3.users.users@, set![id], m1, x);
                                    lemma_appended_other(s3.users.users@, srv.users.users@, id, ms2, x);
                                    let c = srv.channels.chans@[i as int];
                                    assert(ids@.contains(x) == c.has(x)) by {
                                        if ids@.contains(x) {
                                            let q = choose|q: int| 0 <= q < ids@.len() && ids@[q] == x;
                                            assert(c.members@[q].id == x);
                                        }
                                        if c.has(x) {
                                            let q = choose|q: int| 0 <= q < c.members@.len() && (#[trigger] c.members@[q]).id == x;
                                            assert(ids@[q] == x);
                                        }
                                    }
                                    assert(srv.channels.is_member(fold(ps[0]), x) == c.has(x)) by {
                                        if srv.channels.is_member(fold(ps[0]), x) {
                                            let q = choose|q: int| 0 <= q < srv.channels.chans@.len() && (#[trigger] srv.channels.chans@[q]).key() == fold(ps[0]) && srv.channels.chans@[q].has(x);
                                            if q != i as int {
                                                assert(srv.channels.chans@[q].key() != srv.channels.chans@[i as int].key());
                                            }
                                        }
                                    }
                                    assert(join_msg@ == join_view(old(srv).user(id).fullname(), ps[0]));
                                }
                                assert(exists|ms3: Seq<MsgView>| #![trigger queue_view(old(srv).user(id).queue@) + ms3]
                                    queue_view(srv.user(id).queue@) == queue_view(old(srv).user(id).queue@) + ms3
                                    && ms3.len() >= 3 && ms3[0].command == "JOIN"@ && ms3[0].args == seq![ps[0]]
                                    && ms3[0].prefix == Some(old(srv).user(id).fullname())
                                    && (ms3[1].command == crate::numericreply::three_digits(331) || ms3[1].command == crate::numericreply::three_digits(332)));
                            }
                        }
                    },
                    None => {
                        proof {
                            let q = choose|q: int| 0 <= q < srv.channels.chans@.len() && (#[trigger] srv.channels.chans@[q]).key() == fold(name@) && srv.channels.chans@[q].has(id);
                            assert(srv.channels.has_key(fold(name@)));
                        }
                    },
                }
                assert(srv.channels == joined);
                assert(srv.channels == post);
            }
            k = k + 1;
        }
        (true, RecyclingAction::Nothing)
    }
}

/// A JOIN that creates a channel, followed by a PART of it by the same user, as their
/// contracts state them, leaves the channel registry as it was before the JOIN.
pub proof fn lemma_join_part_round_trip(c0: Seq<Channel>, c1: Seq<Channel>, c2: Seq<Channel>, id: u128, name: Seq<char>)
    requires
        forall|i: int, j: int|
            0 <= i < c1.len() && 0 <= j < c1.len() && i != j ==> (#[trigger] c1[i]).key() != (#[trigger] c1[j]).key(),
        joined_fresh(c0, c1, id, name),
        exists|mid: Seq<Channel>, gone: bool| parted(c1, mid, id, fold(name)) && destroyed(mid, c2, fold(name), gone),
    ensures
        c2 == c0,
{
    let (mid, gone) = choose|mid: Seq<Channel>, gone: bool| parted(c1, mid, id, fold(name)) && destroyed(mid, c2, fold(name), gone);
    crate::channels::lemma_join_then_part_restores(c0, c1, mid, c2, id, name, gone);
}

/// The trailing text of a PART: the second argument if any, else the trailing argument.
pub open spec fn part_reason(m: MsgView) -> Option<Seq<char>> {
    if m.args.len() > 1 {
        Some(m.args[1])
    } else {
        m.suffix
    }
}

/// The PART message from `from` for channel `name`.
pub open spec fn part_view(from: Seq<char>, name: Seq<char>, reason: Option<Seq<char>>) -> MsgView {
    MsgView { prefix: Some(from), command: "PART"@, args: seq![name], suffix: reason }
}

/// PART: leaves each channel of a comma-separated list, telling its members (the
/// leaver included); a channel left empty is destroyed.
pub struct CmdPart;

impl CmdPart {
    pub fn handle_command(&self, srv: &mut ServerData, id: u128, cmd: &IRCMessage) -> (r: (bool, RecyclingAction))
        requires
            old(srv).inv(),
            old(srv).users.has_id(id),
        ensures
            part_done(*old(srv), *final(srv), id, *cmd, r),
    {
        if !is_command(cmd, "PART") {
            return (false, RecyclingAction::Nothing);
        }
        if cmd.args.len() == 0 {
            send_needmoreparams(srv, id, "PART");
            return (true, RecyclingAction::Nothing);
        }
        let names = split_on(cmd.args[0].as_str(), ',');
        let ghost ps = pieces(cmd.args@[0]@, ',');
        let reason: Option<String> = if cmd.args.len() > 1 {
            Some(cmd.args[1].clone())
        } else {
            copy_opt_string(&cmd.suffix)
        };
        assert(crate::messages::opt_view(reason) == part_reason(cmd@));
        let mut k: usize = 0;
        while k < names.len()
            invariant
                srv.inv(),
                srv.users.has_id(id),
                k <= names@.len(),
                names@.map_values(|x: String| x@) == ps,
                ps == pieces(cmd.args@[0]@, ','),
                forall|j: int| 0 <= j < k ==> !srv.channels.is_member(fold(#[trigger] ps[j]), id),
                k == 0 ==> *srv == *old(srv),
                crate::messages::opt_view(reason) == part_reason(cmd@),
                k == 1 && ps.len() == 1 ==> {
                    &&& old(srv).channels.is_member(fold(ps[0]), id) ==> forall|q: int| 0 <= q < old(srv).channels.chans@.len()
                        && (#[trigger] old(srv).channels.chans@[q]).key() == fold(ps[0]) ==> queues_pushed(
                        old(srv).users.users@,
                        (*srv).users.users@,
                        Set::new(|x: u128| old(srv).channels.chans@[q].has(x)),
                        part_view(old(srv).user(id).fullname(), ps[0], part_reason(cmd@)),
                    )
                    &&& old(srv).channels.is_member(fold(ps[0]), id) ==> exists|mid: Seq<Channel>, gone: bool|
                        parted(old(srv).channels.chans@, mid, id, fold(ps[0])) && destroyed(mid, (*srv).channels.chans@, fold(ps[0]), gone)
                    &&& old(srv).channels.is_member(fold(ps[0]), id) && (forall|q: int| 0 <= q < old(srv).channels.chans@.len()
                        && (#[trigger] old(srv).channels.chans@[q]).key() == fold(ps[0]) ==> old(srv).channels.chans@[q].members@.len() == 1)
                        ==> !(*srv).channels.has_key(fold(ps[0]))
                    &&& old(srv).channels.has_key(fold(ps[0])) && !old(srv).channels.is_member(fold(ps[0]), id) ==>
                        (*srv).channels == old(srv).channels && exists|m: MsgView|
                        queues_pushed(old(srv).users.users@, (*srv).users.users@, set![id], m)
                            && m.command == crate::numericreply::three_digits(442) && m.args == seq![old(srv).user(id).nickname@, ps[0]]
                    &&& !old(srv).channels.has_key(fold(ps[0])) ==> (*srv).channels == old(srv).channels && exists|m: MsgView|
                        queues_pushed(old(srv).users.users@, (*srv).users.users@, set![id], m)
                            && m.command == crate::numericreply::three_digits(403) && m.args == seq![old(srv).user(id).nickname@, ps[0]]
                },
            decreases names.len() - k,
        {
            let name = &names[k];
            assert(ps[k as int] == name@);
            match srv.channels.index_of(name.as_str()) {
                None => {
                    let a = one_arg(name.clone());
                    let txt = Some("No such channel.".to_owned());
                    let ghost mv = crate::numericreply::numeric_view(NumericReply::ERR_NOSUCHCHANNEL, Some(srv.settings.name@), srv.user(id).nickname@, strings_view(a@), crate::messages::opt_view(txt));
                    let ghost b0 = *srv;
                    srv.send_numeric(id, NumericReply::ERR_NOSUCHCHANNEL, a, txt);
                    assert(queues_pushed(b0.users.users@, srv.users.users@, set![id], mv));
                    assert(mv.args =~= seq![b0.user(id).nickname@, name@]);
                },
                Some(i) => {
                    if !srv.channels.chans[i].has_member(id) {
                        proof {
                            assert forall|j: int| 0 <= j < srv.channels.chans@.len() && (#[trigger] srv.channels.chans@[j]).key() == fold(name@)
                                implies !srv.channels.chans@[j].has(id) by {
                                if j != i as int {
                                    assert(srv.channels.chans@[j].key() != srv.channels.chans@[i as int].key());
                                }
                            }
                        }
                        let a = one_arg(name.clone());
                        let txt = Some("You're not on that channel.".to_owned());
                        let ghost mv = crate::numericreply::numeric_view(NumericReply::ERR_NOTONCHANNEL, Some(srv.settings.name@), srv.user(id).nickname@, strings_view(a@), crate::messages::opt_view(txt));
                        let ghost b0 = *srv;
                        srv.send_numeric(id, NumericReply::ERR_NOTONCHANNEL, a, txt);
                        assert(queues_pushed(b0.users.users@, srv.users.users@, set![id], mv));
                        assert(mv.args =~= seq![b0.user(id).nickname@, name@]);
                    } else {
                        let ids = srv.channels.chans[i].member_ids();
                        proof {
                            let ms = srv.channels.chans@[i as int].members@;
                            assert(srv.channels.chans@[i as int].wf());
                            assert forall|a: int, b: int| 0 <= a < ids@.len() && 0 <= b < ids@.len() && a != b implies ids@[a] != ids@[b] by {
                                assert(ids@[a] == ms[a].id);
                                assert(ids@[b] == ms[b].id);
                            }
                        }
                        let pargs = one_arg(name.clone());
                        let part_msg = IRCMessage {
                            prefix: Some(srv.fullname_of(id)),
                            command: "PART".to_owned(),
                            args: pargs,
                            suffix: copy_opt_string(&reason),
                        };
                        proof {
                            let c = srv.channels.chans@[i as int];
                            assert forall|x: u128| ids@.contains(x) == c.has(x) by {
                                if ids@.contains(x) {
                                    let q = choose|q: int| 0 <= q < ids@.len() && ids@[q] == x;
                                    assert(c.members@[q].id == x);
                                }
                                if c.has(x) {
                                    let q = choose|q: int| 0 <= q < c.members@.len() && (#[trigger] c.members@[q]).id == x;
                                    assert(ids@[q] == x);
                                }
                            }
                            assert(Set::new(|x: u128| ids@.contains(x) && None::<u128> != Some(x)) =~= Set::new(|x: u128| c.has(x)));
                            assert(part_msg@.args =~= seq![name@]);
                            assert(part_msg@ == part_view(srv.user(id).fullname(), name@, part_reason(cmd@)));
                            if k == 0 && ps.len() == 1 {
                                assert forall|q: int| 0 <= q < srv.channels.chans@.len() && (#[trigger] srv.channels.chans@[q]).key() == fold(name@)
                                    implies q == i as int by {
                                    if q != i as int {
                                        assert(srv.channels.chans@[q].key() != srv.channels.chans@[i as int].key());
                                    }
                                }
                            }
                        }
                        srv.send_to_ids(&ids, &part_msg, None);
                        let ghost a0 = *srv;
                        srv.channels.part(id, name.as_str());
                        let ghost b0 = *srv;
                        let gone = srv.channels.destroy_if_empty(name.as_str());
                        proof {
                            lemma_part_keeps_inv(a0, b0, *srv, id, fold(name@), gone);
                            assert forall|j: int| 0 <= j < k implies !srv.channels.is_member(fold(#[trigger] ps[j]), id) by {
                                if srv.channels.is_member(fold(ps[j]), id) {
                                    let q = choose|q: int| 0 <= q < srv.channels.chans@.len() && (#[trigger] srv.channels.chans@[q]).key() == fold(ps[j]) && srv.channels.chans@[q].has(id);
                                    assert(b0.channels.chans@.contains(srv.channels.chans@[q]));
                                    let q2 = choose|q2: int| 0 <= q2 < b0.channels.chans@.len() && b0.channels.chans@[q2] == srv.channels.chans@[q];
                                    if a0.channels.chans@[q2].key() != fold(name@) {
                                        assert(a0.channels.chans@[q2] == b0.channels.chans@[q2]);
                                        assert(a0.channels.is_member(fold(ps[j]), id));
                                    } else {
                                        assert(!b0.channels.chans@[q2].has(id)) by {
                                            if b0.channels.chans@[q2].has(id) {
                                                let w = choose|w: int| 0 <= w < b0.channels.chans@[q2].members@.len() && (#[trigger] b0.channels.chans@[q2].members@[w]).id == id;
                                                assert(b0.channels.chans@[q2].members@.contains(b0.channels.chans@[q2].members@[w]));
                                            }
                                        }
                                    }
                                }
                            }
                            if srv.channels.is_member(fold(name@), id) {
                                let q = choose|q: int| 0 <= q < srv.channels.chans@.len() && (#[trigger] srv.channels.chans@[q]).key() == fold(name@) && srv.channels.chans@[q].has(id);
                                assert(b0.channels.chans@.contains(srv.channels.chans@[q]));
                                let q2 = choose|q2: int| 0 <= q2 < b0.channels.chans@.len() && b0.channels.chans@[q2] == srv.channels.chans@[q];
                                assert(b0.channels.is_member(fold(name@), id));
                            }
                            if k == 0 && ps.len() == 1 {
                                assert(a0.channels == old(srv).channels);
                                assert(parted(old(srv).channels.chans@, b0.channels.chans@, id, fold(ps[0]))
                                    && destroyed(b0.channels.chans@, srv.channels.chans@, fold(ps[0]), gone));
                                if forall|q: int| 0 <= q < old(srv).channels.chans@.len()
                                    && (#[trigger] old(srv).channels.chans@[q]).key() == fold(ps[0]) ==> old(srv).channels.chans@[q].members@.len() == 1 {
                                    let c0 = a0.channels.chans@[i as int];
                                    let c1 = b0.channels.chans@[i as int];
                                    assert(c0.key() == fold(ps[0]));
                                    assert(c0.members@.len() == 1);
                                    assert(c0.has(id));
                                    assert(c1.members@.len() == 0) by {
                                        if c1.members@.len() > 0 {
                                            let m = c1.members@[0];
                                            assert(c1.members@.contains(m));
                                            assert(c0.members@.contains(m) && m.id != id);
                                            let w = choose|w: int| 0 <= w < c0.members@.len() && (#[trigger] c0.members@[w]).id == id;
                                            let w2 = choose|w2: int| 0 <= w2 < c0.members@.len() && c0.members@[w2] == m;
                                            assert(w == 0 && w2 == 0);
                                        }
                                    }
                                    assert(c1.key() == fold(ps[0]));
                                    assert(gone);
                                }
                            }
                        }
                    }
                },
            }
            k = k + 1;
        }
        (true, RecyclingAction::Nothing)
    }
}

fn copy_opt_string(o: &Option<String>) -> (r: Option<String>)
    ensures
        r == *o,
{
    crate::messages::copy_opt(o)
}

/// The author or the target of a text message.
pub enum Actor {
    Channel(String),
    Server(String),
    User(u128, String),
}

impl Actor {
    /// The name of the actor.
    pub fn into_text(self) -> (r: String)
        ensures
            r == match self {
                Actor::Channel(s) => s,
                Actor::Server(s) => s,
                Actor::User(_, s) => s,
            },
    {
        match self {
            Actor::Channel(s) => s,
            Actor::Server(s) => s,
            Actor::User(_, s) => s,
        }
    }
}

/// A PRIVMSG or NOTICE on its way to its target.
pub struct TextMessage {
    pub notice: bool,
    pub source: Actor,
    pub target: Actor,
    pub text: String,
}

/// Whether user `u` is a network operator (`+o`).
pub open spec fn is_oper(u: UserData) -> bool {
    crate::modes::Modes::has(u.modes@, 'o')
}

/// Whether a text from `id` to channel `c` is refused: under `+n` the sender must be a
/// member, and under `+m` a member with voice or operator; network operators pass.
pub open spec fn send_refused(c: Channel, id: u128, oper: bool) -> bool {
    !oper && ((crate::modes::Modes::has(c.modes@, 'n') && !c.has(id)) || (crate::modes::Modes::has(
        c.modes@,
        'm',
    ) && !(c.mode_of(id) matches Some(m) && (m.voice || m.op))))
}

impl ServerData {
    /// Whether user `id` is a network operator.
    pub fn user_is_oper(&self, id: u128) -> (r: bool)
        requires
            self.inv(),
            self.users.has_id(id),
        ensures
            r == is_oper(self.user(id)),
    {
        match self.users.index_of_uuid(id) {
            Some(i) => {
                proof {
                    ServerData::lemma_user_of(self.users.users@, i as int);
                }
                self.users.users[i].modes.get('o')
            },
            None => false,
        }
    }

    /// The away message of user `id`, if away.
    pub fn away_of(&self, id: u128) -> (r: Option<String>)
        requires
            self.inv(),
            self.users.has_id(id),
        ensures
            r == self.user(id).away,
    {
        match self.users.index_of_uuid(id) {
            Some(i) => {
                proof {
                    ServerData::lemma_user_of(self.users.users@, i as int);
                }
                copy_opt_string(&self.users.users[i].away)
            },
            None => None,
        }
    }

    /// Passes a text message through the outbound chain: the away auto-reply, then
    /// delivery to a user, then the channel checks and delivery to a channel.
    pub fn send_message(&mut self, msg: TextMessage)
        requires
            old(self).inv(),
            msg.source matches Actor::User(sid, _) ==> old(self).users.has_id(sid),
            msg.target matches Actor::User(tid, _) ==> old(self).users.has_id(tid),
        ensures
            ({
                match (msg.source, msg.target) {
                    (Actor::User(sid, _), Actor::User(tid, tname)) => sid != tid ==> (exists|m: MsgView|
                        queue_view(final(self).user(tid).queue@) == queue_view(old(self).user(tid).queue@).push(m)
                            && m.suffix == Some(msg.text@)
                            && m.command == (if msg.notice { "NOTICE"@ } else { "PRIVMSG"@ })
                            && m.args == seq![tname@]
                            && m.prefix == Some(old(self).user(sid).fullname()))
                        && ((msg.notice || old(self).user(tid).away is None) ==> queue_view(final(self).user(sid).queue@)
                            == queue_view(old(self).user(sid).queue@)),
                    _ => true,
                }
            }),
            final(self).inv(),
            final(self).channels == old(self).channels,
            final(self).settings == old(self).settings,
            final(self).opers == old(self).opers,
            final(self).signal_shutdown == old(self).signal_shutdown,
            same_but_queues(old(self).users.users@, final(self).users.users@),
            forall|x: u128| #[trigger] final(self).users.has_id(x) == old(self).users.has_id(x),
            ({
                let chans = old(self).channels.chans@;
                match (msg.source, msg.target) {
                    (Actor::User(sid, _), Actor::Channel(cname)) => forall|i: int|
                        0 <= i < chans.len() && (#[trigger] chans[i]).key() == fold(cname@) ==> if send_refused(
                            chans[i],
                            sid,
                            is_oper(old(self).user(sid)),
                        ) {
                            exists|m: MsgView|
                                queues_pushed(old(self).users.users@, final(self).users.users@, set![sid], m)
                                    && m.command == crate::numericreply::three_digits(404)
                                    && m.args == seq![old(self).user(sid).nickname@, cname@]
                        } else {
                            exists|m: MsgView|
                                queues_pushed(
                                    old(self).users.users@,
                                    final(self).users.users@,
                                    Set::new(|x: u128| chans[i].has(x) && x != sid),
                                    m,
                                ) && m.suffix == Some(msg.text@)
                        },
                    _ => true,
                }
            }),
    {
        let ghost s0 = *self;
        let ghost m0 = msg;
        match ModAway.handle_message_sending(self, msg) {
            Some(m1) => {
                let ghost s1 = *self;
                proof {
                    if let (Actor::User(sid, _), Actor::User(tid, _)) = (m0.source, m0.target) {
                        if sid != tid {
                            if s1 != s0 {
                                let m = choose|m: MsgView| queues_pushed(s0.users.users@, s1.users.users@, set![sid], m)
                                    && m.command == crate::numericreply::three_digits(301)
                                    && m.suffix == crate::messages::opt_view(s0.user(tid).away);
                                ServerData::lemma_pushed_user(s0.users.users@, s1.users.users@, set![sid], m, tid);
                            }
                            assert(queue_view(s1.user(tid).queue@) == queue_view(s0.user(tid).queue@));
                        }
                    }
                }
                match QueryDispatcher.handle_message_sending(self, m1) {
                    Some(m2) => {
                        ChannelDispatcher.handle_message_sending(self, m2);
                    },
                    None => {
                        proof {
                            if let (Actor::User(sid, _), Actor::User(tid, _)) = (m0.source, m0.target) {
                                if sid != tid {
                                    let m = choose|m: MsgView| queues_pushed(s1.users.users@, self.users.users@, set![tid], m)
                                        && m.suffix == Some(m0.text@)
                                        && m.command == (if m0.notice { "NOTICE"@ } else { "PRIVMSG"@ })
                                        && m.args == seq![m0.target->User_1@]
                                        && m.prefix == Some(s1.user(sid).fullname());
                                    assert(s1.users.has_id(tid));
                                    ServerData::lemma_pushed_user(s1.users.users@, self.users.users@, set![tid], m, tid);
                                    ServerData::lemma_pushed_user(s1.users.users@, self.users.users@, set![tid], m, sid);
                                    ServerData::lemma_identity_user(s0, s1, sid);
                                    assert(queue_view(self.user(tid).queue@) == queue_view(s0.user(tid).queue@).push(m));
                                }
                            }
                        }
                    },
                }
            },
            None => {},
        }
    }
}

/// The away auto-reply: a PRIVMSG from a user to an away user gets `RPL_AWAY`, with the
/// away message, back to the sender; the message goes on.
impl ModAway {
    pub fn handle_message_sending(&self, srv: &mut ServerData, msg: TextMessage) -> (r: Option<TextMessage>)
        requires
            old(srv).inv(),
            msg.source matches Actor::User(sid, _) ==> old(srv).users.has_id(sid),
            msg.target matches Actor::User(tid, _) ==> old(srv).users.has_id(tid),
        ensures
            final(srv).inv(),
            final(srv).channels == old(srv).channels,
            final(srv).settings == old(srv).settings,
            final(srv).opers == old(srv).opers,
            final(srv).signal_shutdown == old(srv).signal_shutdown,
            same_but_queues(old(srv).users.users@, final(srv).users.users@),
            forall|x: u128| #[trigger] final(srv).users.has_id(x) == old(srv).users.has_id(x),
            r == Some(msg),
            !(msg.target is User) ==> *final(srv) == *old(srv),
            ({
                match (msg.source, msg.target) {
                    (Actor::User(sid, _), Actor::User(tid, tname)) => if !msg.notice && old(srv).user(tid).away is Some {
                        exists|m: MsgView| queues_pushed(old(srv).users.users@, final(srv).users.users@, set![sid], m)
                            && m.command == crate::numericreply::three_digits(301)
                            && m.args == seq![old(srv).user(sid).nickname@, tname@]
                            && m.suffix == crate::messages::opt_view(old(srv).user(tid).away)
                    } else {
                        *final(srv) == *old(srv)
                    },
                    _ => true,
                }
            }),
    {
        if !msg.notice {
            if let (Actor::User(sid, snick), Actor::User(tid, tnick)) = (&msg.source, &msg.target) {
                match srv.away_of(*tid) {
                    Some(txt) => {
                        let mut a: Vec<String> = Vec::new();
                        a.push(tnick.clone());
                        let ghost av = strings_view(a@);
                        let ghost tv = crate::messages::opt_view(Some(txt));
                        let ghost mv = crate::numericreply::numeric_view(NumericReply::RPL_AWAY, Some(srv.settings.name@), srv.user(*sid).nickname@, av, tv);
                        srv.send_numeric(*sid, NumericReply::RPL_AWAY, a, Some(txt));
                        assert(queues_pushed(old(srv).users.users@, srv.users.users@, set![*sid], mv));
                        assert(mv.args =~= seq![old(srv).user(*sid).nickname@, tnick@]);
                    },
                    None => {},
                }
            }
        }
        Some(msg)
    }
}

/// Delivery of a text message to a user; messages to channels go on.
pub struct QueryDispatcher;

impl QueryDispatcher {
    pub fn handle_message_sending(&self, srv: &mut ServerData, msg: TextMessage) -> (r: Option<TextMessage>)
        requires
            old(srv).inv(),
            msg.source matches Actor::User(sid, _) ==> old(srv).users.has_id(sid),
            msg.target matches Actor::User(tid, _) ==> old(srv).users.has_id(tid),
        ensures
            final(srv).inv(),
            final(srv).channels == old(srv).channels,
            final(srv).settings == old(srv).settings,
            final(srv).opers == old(srv).opers,
            final(srv).signal_shutdown == old(srv).signal_shutdown,
            same_but_queues(old(srv).users.users@, final(srv).users.users@),
            forall|x: u128| #[trigger] final(srv).users.has_id(x) == old(srv).users.has_id(x),
            msg.target is User ==> r is None && exists|m: MsgView|
                queues_pushed(old(srv).users.users@, final(srv).users.users@, set![msg.target->User_0], m)
                    && m.suffix == Some(msg.text@)
                    && m.command == (if msg.notice { "NOTICE"@ } else { "PRIVMSG"@ })
                    && m.args == seq![msg.target->User_1@]
                    && (msg.source is User ==> m.prefix == Some(old(srv).user(msg.source->User_0).fullname())),
            !(msg.target is User) ==> r == Some(msg) && *final(srv) == *old(srv),
    {
        match msg.target {
            Actor::User(tid, tname) => {
                let command = if msg.notice {
                    "NOTICE".to_owned()
                } else {
                    "PRIVMSG".to_owned()
                };
                let prefix = match &msg.source {
                    Actor::User(sid, _) => srv.fullname_of(*sid),
                    Actor::Server(n) => n.clone(),
                    Actor::Channel(n) => n.clone(),
                };
                let ghost tv = tname@;
                let a = one_arg(tname);
                let m = IRCMessage { prefix: Some(prefix), command, args: a, suffix: Some(msg.text) };
                let ghost mv = m@;
                srv.send_to(tid, m);
                assert(queues_pushed(old(srv).users.users@, srv.users.users@, set![tid], mv));
                assert(mv.args =~= seq![tv]);
                None
            },
            target => Some(TextMessage { notice: msg.notice, source: msg.source, target, text: msg.text }),
        }
    }
}

/// Delivery of a text message to a channel: under `+n` the sender must be a member and
/// under `+m` a member with voice or operator (network operators pass), else the sender
/// gets `ERR_CANNOTSENDTOCHAN`; the members but the sender get the message.
pub struct ChannelDispatcher;

impl ChannelDispatcher {
    pub fn handle_message_sending(&self, srv: &mut ServerData, msg: TextMessage) -> (r: Option<TextMessage>)
        requires
            old(srv).inv(),
            msg.source matches Actor::User(sid, _) ==> old(srv).users.has_id(sid),
        ensures
            final(srv).inv(),
            final(srv).channels == old(srv).channels,
            final(srv).settings == old(srv).settings,
            final(srv).opers == old(srv).opers,
            final(srv).signal_shutdown == old(srv).signal_shutdown,
            same_but_queues(old(srv).users.users@, final(srv).users.users@),
            forall|x: u128| #[trigger] final(srv).users.has_id(x) == old(srv).users.has_id(x),
            ({
                let chans = old(srv).channels.chans@;
                match (msg.source, msg.target) {
                    (Actor::User(sid, _), Actor::Channel(cname)) => forall|i: int|
                        0 <= i < chans.len() && (#[trigger] chans[i]).key() == fold(cname@) ==> if send_refused(
                            chans[i],
                            sid,
                            is_oper(old(srv).user(sid)),
                        ) {
                            exists|m: MsgView|
                                queues_pushed(old(srv).users.users@, final(srv).users.users@, set![sid], m)
                                    && m.command == crate::numericreply::three_digits(404)
                                    && m.args == seq![old(srv).user(sid).nickname@, cname@]
                        } else {
                            exists|m: MsgView|
                                queues_pushed(
                                    old(srv).users.users@,
                                    final(srv).users.users@,
                                    Set::new(|x: u128| chans[i].has(x) && x != sid),
                                    m,
                                ) && m.suffix == Some(msg.text@)
                        },
                    _ => true,
                }
            }),
            msg.target is Channel ==> r is None,
            !(msg.target is Channel) ==> r == Some(msg) && *final(srv) == *old(srv),
    {
        let notice = msg.notice;
        let command = if notice {
            "NOTICE".to_owned()
        } else {
            "PRIVMSG".to_owned()
        };
        let TextMessage { notice: _, source, target, text } = msg;
        let ghost text_v = text@;
        match target {
            Actor::Channel(cname) => {
                match srv.channels.index_of(cname.as_str()) {
                    None => {},
                    Some(i) => {
                        proof {
                            assert forall|j: int| 0 <= j < srv.channels.chans@.len() && (#[trigger] srv.channels.chans@[j]).key() == fold(cname@)
                                implies j == i as int by {
                                if j != i as int {
                                    assert(srv.channels.chans@[j].key() != srv.channels.chans@[i as int].key());
                                }
                            }
                        }
                        match &source {
                            Actor::User(sid, snick) => {
                                let sid = *sid;
                                let oper = srv.user_is_oper(sid);
                                let c = &srv.channels.chans[i];
                                let no_ext = c.modes.get('n');
                                let moderated = c.modes.get('m');
                                let member = c.has_member(sid);
                                let voiced = match c.member_mode(sid) {
                                    Some(m) => m.voice || m.op,
                                    None => false,
                                };
                                let ghost c0 = srv.channels.chans@[i as int];
                                assert(srv.channels.chans@ == old(srv).channels.chans@);
                                assert(oper == is_oper(old(srv).user(sid)));
                                assert(((!oper && ((no_ext && !member) || (moderated && !voiced)))) == send_refused(c0, sid, oper));
                                if !oper && ((no_ext && !member) || (moderated && !voiced)) {
                                    let ghost cname_v = cname@;
                                    let mut a: Vec<String> = Vec::new();
                                    a.push(cname);
                                    let ghost av = strings_view(a@);
                                    let txt = Some("Cannot send to channel.".to_owned());
                                    let ghost tv = crate::messages::opt_view(txt);
                                    let ghost mv = crate::numericreply::numeric_view(
                                        NumericReply::ERR_CANNOTSENDTOCHAN,
                                        Some(srv.settings.name@),
                                        srv.user(sid).nickname@,
                                        av,
                                        tv,
                                    );
                                    srv.send_numeric(sid, NumericReply::ERR_CANNOTSENDTOCHAN, a, txt);
                                    assert(queues_pushed(old(srv).users.users@, srv.users.users@, set![sid], mv));
                                    assert(mv.command == crate::numericreply::three_digits(404));
                                    assert(mv.args =~= seq![old(srv).user(sid).nickname@, cname_v]);
                                } else {
                                    let ids = srv.channels.chans[i].member_ids();
                                    proof {
                                        let ms = srv.channels.chans@[i as int].members@;
                                        assert(srv.channels.chans@[i as int].wf());
                                        assert forall|a: int, b: int| 0 <= a < ids@.len() && 0 <= b < ids@.len() && a != b implies ids@[a] != ids@[b] by {
                                            assert(ids@[a] == ms[a].id);
                                            assert(ids@[b] == ms[b].id);
                                        }
                                        let c = srv.channels.chans@[i as int];
                                        assert forall|x: u128| ids@.contains(x) == c.has(x) by {
                                            if ids@.contains(x) {
                                                let q = choose|q: int| 0 <= q < ids@.len() && ids@[q] == x;
                                                assert(c.members@[q].id == x);
                                            }
                                            if c.has(x) {
                                                let q = choose|q: int| 0 <= q < c.members@.len() && (#[trigger] c.members@[q]).id == x;
                                                assert(ids@[q] == x);
                                            }
                                        }
                                        assert(Set::new(|x: u128| ids@.contains(x) && Some(sid) != Some(x)) =~= Set::new(|x: u128| c.has(x) && x != sid));
                                    }
                                    let prefix = srv.fullname_of(sid);
                                    let mut a: Vec<String> = Vec::new();
                                    a.push(cname);
                                    let m = IRCMessage { prefix: Some(prefix), command, args: a, suffix: Some(text) };
                                    let ghost mv = m@;
                                    srv.send_to_ids(&ids, &m, Some(sid));
                                    assert(queues_pushed(
                                        old(srv).users.users@,
                                        srv.users.users@,
                                        Set::new(|x: u128| c0.has(x) && x != sid),
                                        mv,
                                    ));
                                    assert(mv.suffix == Some(text_v));
                                }
                            },
                            _ => {
                                let ids = srv.channels.chans[i].member_ids();
                                proof {
                                    let ms = srv.channels.chans@[i as int].members@;
                                    assert(srv.channels.chans@[i as int].wf());
                                    assert forall|a: int, b: int| 0 <= a < ids@.len() && 0 <= b < ids@.len() && a != b implies ids@[a] != ids@[b] by {
                                        assert(ids@[a] == ms[a].id);
                                        assert(ids@[b] == ms[b].id);
                                    }
                                }
                                let prefix = match source {
                                    Actor::Server(n) => n,
                                    Actor::Channel(n) => n,
                                    Actor::User(_, n) => n,
                                };
                                let mut a: Vec<String> = Vec::new();
                                a.push(cname);
                                let m = IRCMessage { prefix: Some(prefix), command, args: a, suffix: Some(text) };
                                srv.send_to_ids(&ids, &m, None);
                            },
                        }
                    },
                }
            },
            other => {
                return Some(TextMessage { notice, source, target: other, text });
            },
        }
        None
    }
}

/// PRIVMSG and NOTICE: sends a text to a user or to a channel through the outbound
/// chain; `ERR_NOSUCHNICK` when the target is neither, `ERR_NORECIPIENT` and
/// `ERR_NOTEXTTOSEND` when arguments are missing.
pub struct CmdPrivmsgOrNotice;

impl CmdPrivmsgOrNotice {
    pub fn handle_command(&self, srv: &mut ServerData, id: u128, cmd: &IRCMessage) -> (r: (bool, RecyclingAction))
        requires
            old(srv).inv(),
            old(srv).users.has_id(id),
        ensures
            privmsg_done(*old(srv), *final(srv), id, *cmd, r),
    {
        let notice = is_command(cmd, "NOTICE");
        let privmsg = is_command(cmd, "PRIVMSG");
        if !notice && !privmsg {
            return (false, RecyclingAction::Nothing);
        }
        match cmd.as_nparams(2, 0) {
            Some(args) => {
                let target = &args[0];
                proof {
                    let m = cmd@;
                    let f = crate::messages::fuse(m.args.skip(1), m.suffix);
                    assert(args@.len() == 2);
                    assert(strings_view(args@) == m.args.take(1).push(f));
                    assert(strings_view(args@)[0] == args@[0]@);
                    assert(strings_view(args@)[1] == args@[1]@);
                    assert(m.args.take(1).push(f)[0] == m.args[0]);
                    assert(m.args.take(1).push(f)[1] == f);
                }
                assert(target@ == cmd@.args[0]);
                let source = Actor::User(id, srv.nick_of(id));
                match srv.users.get_uuid_of_nickname(target.as_str()) {
                    Some(tid) => {
                        proof {
                            let u = srv.users.by_nick(fold(target@))->0;
                            assert(srv.users.users@.contains(u));
                            let q = choose|q: int| 0 <= q < srv.users.users@.len() && srv.users.users@[q] == u;
                            assert(srv.users.users@[q].id == tid);
                        }
                        let text = args[1].clone();
                        assert(text@ == crate::messages::fuse(cmd@.args.skip(1), cmd@.suffix));
                        srv.send_message(TextMessage { notice, source, target: Actor::User(tid, target.clone()), text });
                    },
                    None => {
                        if srv.channels.has_chan(target.as_str()) {
                            let text = args[1].clone();
                            assert(text@ == crate::messages::fuse(cmd@.args.skip(1), cmd@.suffix));
                            srv.send_message(TextMessage { notice, source, target: Actor::Channel(target.clone()), text });
                        } else {
                            let a = one_arg(target.clone());
                            let txt = Some("No such nick/channel.".to_owned());
                            let ghost mv = crate::numericreply::numeric_view(NumericReply::ERR_NOSUCHNICK, Some(srv.settings.name@), srv.user(id).nickname@, strings_view(a@), crate::messages::opt_view(txt));
                            srv.send_numeric(id, NumericReply::ERR_NOSUCHNICK, a, txt);
                            assert(queues_pushed(old(srv).users.users@, srv.users.users@, set![id], mv));
                        }
                    },
                }
            },
            None => {
                let a = one_arg(cmd.command.clone());
                if cmd.args.len() >= 1 {
                    let txt = Some("No text to send.".to_owned());
                    let ghost mv = crate::numericreply::numeric_view(NumericReply::ERR_NOTEXTTOSEND, Some(srv.settings.name@), srv.user(id).nickname@, strings_view(a@), crate::messages::opt_view(txt));
                    srv.send_numeric(id, NumericReply::ERR_NOTEXTTOSEND, a, txt);
                    assert(queues_pushed(old(srv).users.users@, srv.users.users@, set![id], mv));
                } else {
                    let txt = Some("No recipient given.".to_owned());
                    let ghost mv = crate::numericreply::numeric_view(NumericReply::ERR_NORECIPIENT, Some(srv.settings.name@), srv.user(id).nickname@, strings_view(a@), crate::messages::opt_view(txt));
                    srv.send_numeric(id, NumericReply::ERR_NORECIPIENT, a, txt);
                    assert(queues_pushed(old(srv).users.users@, srv.users.users@, set![id], mv));
                }
            },
        }
        (true, RecyclingAction::Nothing)
    }
}

/// RFC 822 time stamps, as answered to TIME.
pub const RFC822_FORMAT: &'static str = "%a, %d %b %Y %T %Z";

fn one_arg(s: String) -> (r: Vec<String>)
    ensures
        r@ == seq![s],
{
    let mut v: Vec<String> = Vec::new();
    v.push(s);
    assert(v@ =~= seq![s]);
    v
}

/// Sends `ERR_NEEDMOREPARAMS` for command `cmd` to user `id`.
pub fn send_needmoreparams(srv: &mut ServerData, id: u128, cmd: &str)
    requires
        old(srv).inv(),
        old(srv).users.has_id(id),
    ensures
        final(srv).inv(),
        final(srv).channels == old(srv).channels,
        final(srv).settings == old(srv).settings,
        final(srv).opers == old(srv).opers,
        final(srv).signal_shutdown == old(srv).signal_shutdown,
        forall|x: u128| #[trigger] final(srv).users.has_id(x) == old(srv).users.has_id(x),
        forall|x: u128| old(srv).users.has_id(x) ==> #[trigger] final(srv).user(x).nickname == old(srv).user(x).nickname,
        exists|m: MsgView| queues_pushed(old(srv).users.users@, final(srv).users.users@, set![id], m)
            && m.command == crate::numericreply::three_digits(461) && m.args == seq![old(srv).user(id).nickname@, cmd@],
{
    let a = one_arg(cmd.to_owned());
    let txt = Some("Not enough parameters.".to_owned());
    let ghost mv = crate::numericreply::numeric_view(NumericReply::ERR_NEEDMOREPARAMS, Some(srv.settings.name@), srv.user(id).nickname@, strings_view(a@), crate::messages::opt_view(txt));
    srv.send_numeric(id, NumericReply::ERR_NEEDMOREPARAMS, a, txt);
    assert(strings_view(a@) =~= seq![cmd@]);
    assert(queues_pushed(old(srv).users.users@, srv.users.users@, set![id], mv));
    assert(mv.args =~= seq![old(srv).user(id).nickname@, cmd@]);
}

/// A list of one string.
pub fn one_arg_pub(s: String) -> (r: Vec<String>)
    ensures
        r@ == seq![s],
{
    one_arg(s)
}

/// NICK: asks the recycler for a nickname change to a valid, different nickname;
/// `ERR_ERRONEUSNICKNAME` for an invalid one, `ERR_NONICKNAMEGIVEN` without argument.
pub struct CmdNick;

impl CmdNick {
    pub fn handle_command(&self, srv: &mut ServerData, id: u128, cmd: &IRCMessage) -> (r: (bool, RecyclingAction))
        requires
            old(srv).inv(),
            old(srv).users.has_id(id),
        ensures
            nick_done(*old(srv), *final(srv), id, *cmd, r),
    {
        if !is_command(cmd, "NICK") {
            return (false, RecyclingAction::Nothing);
        }
        let given: Option<String> = if cmd.args.len() > 0 {
            Some(cmd.args[0].clone())
        } else {
            copy_opt_string(&cmd.suffix)
        };
        match given {
            Some(nick) => {
                if crate::util::check_label(nick.as_str()) {
                    let current = srv.nick_of(id);
                    if nick == current {
                        (true, RecyclingAction::Nothing)
                    } else {
                        (true, RecyclingAction::ChangeNick(nick))
                    }
                } else {
                    let a = one_arg(nick);
                    let txt = Some("Erroneous nickname.".to_owned());
                    let ghost mv = crate::numericreply::numeric_view(NumericReply::ERR_ERRONEUSNICKNAME, Some(srv.settings.name@), srv.user(id).nickname@, strings_view(a@), crate::messages::opt_view(txt));
                    srv.send_numeric(id, NumericReply::ERR_ERRONEUSNICKNAME, a, txt);
                    assert(queues_pushed(old(srv).users.users@, srv.users.users@, set![id], mv));
                    assert(mv.args =~= seq![old(srv).user(id).nickname@, nick@]);
                    (true, RecyclingAction::Nothing)
                }
            },
            None => {
                let no_args: Vec<String> = Vec::new();
                let txt = Some("No nickname given.".to_owned());
                let ghost mv = crate::numericreply::numeric_view(NumericReply::ERR_NONICKNAMEGIVEN, Some(srv.settings.name@), srv.user(id).nickname@, strings_view(no_args@), crate::messages::opt_view(txt));
                srv.send_numeric(id, NumericReply::ERR_NONICKNAMEGIVEN, no_args, txt);
                assert(queues_pushed(old(srv).users.users@, srv.users.users@, set![id], mv));
                (true, RecyclingAction::Nothing)
            },
        }
    }
}

/// QUIT: tells every user sharing a channel with the quitter, and asks the recycler to
/// destroy the quitter.
pub struct CmdQuit;

impl CmdQuit {
    pub fn handle_command(&self, srv: &mut ServerData, id: u128, cmd: &IRCMessage) -> (r: (bool, RecyclingAction))
        requires
            old(srv).inv(),
            old(srv).users.has_id(id),
        ensures
            quit_done(*old(srv), *final(srv), id, *cmd, r),
    {
        if !is_command(cmd, "QUIT") {
            return (false, RecyclingAction::Nothing);
        }
        let known = srv.known_by_uuid(id);
        let reason = match cmd.as_nparams(0, 1) {
            Some(a) => if a.len() > 0 {
                proof {
                    assert(cmd@.args.skip(0) =~= cmd@.args);
                    assert(strings_view(a@)[0] == a@[0]@);
                    assert(cmd@.args.take(0).push(crate::messages::fuse(cmd@.args.skip(0), cmd@.suffix))[0]
                        == crate::messages::fuse(cmd@.args.skip(0), cmd@.suffix));
                }
                Some(a[0].clone())
            } else {
                None
            },
            None => None,
        };
        let no_args: Vec<String> = Vec::new();
        assert(strings_view(no_args@) =~= Seq::<Seq<char>>::empty());
        let msg = IRCMessage { prefix: Some(srv.fullname_of(id)), command: "QUIT".to_owned(), args: no_args, suffix: reason };
        let ghost mv = msg@;
        proof {
            assert(Set::new(|x: u128| known@.contains(x) && Some(id) != Some(x)) =~= Set::new(
                |x: u128| crate::server::share_channel(srv.channels.chans@, id, x) && x != id,
            ));
        }
        srv.send_to_ids(&known, &msg, Some(id));
        assert(queues_pushed(
            old(srv).users.users@,
            srv.users.users@,
            Set::new(|x: u128| crate::server::share_channel(old(srv).channels.chans@, id, x) && x != id),
            mv,
        ));
        assert(mv.command == "QUIT"@);
        (true, RecyclingAction::Zombify)
    }
}

/// PING: answers `PONG` with the server's name and the token.
pub struct CmdPing;

impl CmdPing {
    pub fn handle_command(&self, srv: &mut ServerData, id: u128, cmd: &IRCMessage) -> (r: (bool, RecyclingAction))
        requires
            old(srv).inv(),
            old(srv).users.has_id(id),
        ensures
            ping_done(*old(srv), *final(srv), id, *cmd, r),
    {
        if !is_command(cmd, "PING") {
            return (false, RecyclingAction::Nothing);
        }
        if cmd.args.len() > 0 {
            let mut a: Vec<String> = Vec::new();
            a.push(srv.settings.name.clone());
            a.push(cmd.args[0].clone());
            let m = IRCMessage { prefix: None, command: "PONG".to_owned(), args: a, suffix: None };
            assert(strings_view(m.args@) =~= seq![srv.settings.name@, cmd.args@[0]@]);
            srv.send_to(id, m);
        } else {
            send_needmoreparams(srv, id, "PING");
        }
        (true, RecyclingAction::Nothing)
    }
}

/// AWAY: with a message, marks the user away (`+a`) with that message; without, marks
/// the user back.
pub struct ModAway;

impl ModAway {
    pub fn init() -> (r: ModAway) {
        ModAway
    }

    pub fn handle_command(&self, srv: &mut ServerData, id: u128, cmd: &IRCMessage) -> (r: (bool, RecyclingAction))
        requires
            old(srv).inv(),
            old(srv).users.has_id(id),
        ensures
            away_done(*old(srv), *final(srv), id, *cmd, r),
    {
        if !is_command(cmd, "AWAY") {
            return (false, RecyclingAction::Nothing);
        }
        let msg: Option<String> = match cmd.as_nparams(0, 1) {
            Some(a) => if a.len() > 0 {
                proof {
                    assert(cmd@.args.skip(0) =~= cmd@.args);
                    assert(strings_view(a@)[0] == a@[0]@);
                    assert(cmd@.args.take(0).push(crate::messages::fuse(cmd@.args.skip(0), cmd@.suffix))[0]
                        == crate::messages::fuse(cmd@.args.skip(0), cmd@.suffix));
                }
                Some(a[0].clone())
            } else {
                None
            },
            None => None,
        };
        let ghost msg_v = crate::messages::opt_view(msg);
        let away = msg.is_some();
        let ghost before = *srv;
        srv.users.set_away(id, msg);
        proof {
            ServerData::lemma_identity_keeps_inv(before, *srv);
            let i = choose|i: int| 0 <= i < before.users.users@.len() && (#[trigger] before.users.users@[i]).id == id;
            ServerData::lemma_user_of(srv.users.users@, i);
            assert(srv.users.users@[i].id == id);
            assert(srv.users.users@[i].modes@ == before.users.users@[i].modes@.update(0, away));
            assert(crate::modes::slot_of('a') == Some(0int));
        }
        if away {
            srv.send_numeric(id, NumericReply::RPL_NOWAWAY, Vec::new(), Some("You have been marked as away.".to_owned()));
        } else {
            srv.send_numeric(id, NumericReply::RPL_UNAWAY, Vec::new(), Some("You are no longer marked as away.".to_owned()));
        }
        proof {
            let i = choose|i: int| 0 <= i < before.users.users@.len() && (#[trigger] before.users.users@[i]).id == id;
            ServerData::lemma_user_of(srv.users.users@, i);
            assert(crate::messages::opt_view(srv.user(id).away) == msg_v);
        }
        (true, RecyclingAction::Nothing)
    }
}

/// OPER: with a name and password found among the configured credentials, makes the
/// user a network operator (`+o`) and answers `RPL_YOUREOPER`; else `ERR_PASSWDMISMATCH`.
pub struct CmdOper;

/// Whether (name, password) is among the credentials.
pub open spec fn creds_match(opers: Seq<(String, String)>, name: Seq<char>, pass: Seq<char>) -> bool {
    exists|k: int| 0 <= k < opers.len() && (#[trigger] opers[k]).0@ == name && opers[k].1@ == pass
}

impl CmdOper {
    pub fn handle_command(&self, srv: &mut ServerData, id: u128, cmd: &IRCMessage) -> (r: (bool, RecyclingAction))
        requires
            old(srv).inv(),
            old(srv).users.has_id(id),
        ensures
            oper_done(*old(srv), *final(srv), id, *cmd, r),
    {
        if !is_command(cmd, "OPER") {
            return (false, RecyclingAction::Nothing);
        }
        if cmd.args.len() < 2 {
            send_needmoreparams(srv, id, "OPER");
            return (true, RecyclingAction::Nothing);
        }
        let name = &cmd.args[0];
        let pass = &cmd.args[1];
        let mut ok = false;
        let mut k: usize = 0;
        while k < srv.opers.len()
            invariant
                k <= srv.opers@.len(),
                ok == exists|q: int| 0 <= q < k && (#[trigger] srv.opers@[q]).0@ == name@ && srv.opers@[q].1@ == pass@,
            decreases srv.opers.len() - k,
        {
            if srv.opers[k].0 == *name && srv.opers[k].1 == *pass {
                ok = true;
            }
            k = k + 1;
        }
        if ok {
            let ghost before = *srv;
            srv.users.set_user_mode(id, 'o', true);
            proof {
                ServerData::lemma_identity_keeps_inv(before, *srv);
                let i = choose|i: int| 0 <= i < before.users.users@.len() && (#[trigger] before.users.users@[i]).id == id;
                ServerData::lemma_user_of(srv.users.users@, i);
                ServerData::lemma_user_of(before.users.users@, i);
                assert(srv.users.users@[i].id == id);
                assert(crate::modes::slot_of('o') == Some(14int));
            }
            let ghost mid = *srv;
            let no_args: Vec<String> = Vec::new();
            let txt = Some("You are now an IRC operator.".to_owned());
            let ghost mv = crate::numericreply::numeric_view(NumericReply::RPL_YOUREOPER, Some(srv.settings.name@), srv.user(id).nickname@, strings_view(no_args@), crate::messages::opt_view(txt));
            srv.send_numeric(id, NumericReply::RPL_YOUREOPER, no_args, txt);
            proof {
                ServerData::lemma_pushed_user(mid.users.users@, srv.users.users@, set![id], mv, id);
                let q = choose|q: int| 0 <= q < old(srv).users.users@.len() && (#[trigger] old(srv).users.users@[q]).id == id;
                ServerData::lemma_user_of(old(srv).users.users@, q);
                ServerData::lemma_user_of(mid.users.users@, q);
                assert(mid.users.users@[q].id == id);
                assert(queue_view(mid.user(id).queue@) == queue_view(old(srv).user(id).queue@));
            }
        } else {
            let no_args: Vec<String> = Vec::new();
            let txt = Some("Password incorrect.".to_owned());
            let ghost mv = crate::numericreply::numeric_view(NumericReply::ERR_PASSWDMISMATCH, Some(srv.settings.name@), srv.user(id).nickname@, strings_view(no_args@), crate::messages::opt_view(txt));
            srv.send_numeric(id, NumericReply::ERR_PASSWDMISMATCH, no_args, txt);
            proof {
                ServerData::lemma_pushed_user(old(srv).users.users@, srv.users.users@, set![id], mv, id);
                let q = choose|q: int| 0 <= q < old(srv).users.users@.len() && (#[trigger] old(srv).users.users@[q]).id == id;
                ServerData::lemma_user_of(old(srv).users.users@, q);
                ServerData::lemma_user_of(srv.users.users@, q);
                assert(srv.users.users@[q].id == id);
            }
        }
        (true, RecyclingAction::Nothing)
    }
}

/// DIE: a network operator shuts the server down; others get `ERR_NOPRIVILEGES`.
pub struct CmdDie;

impl CmdDie {
    pub fn handle_command(&self, srv: &mut ServerData, id: u128, cmd: &IRCMessage) -> (r: (bool, RecyclingAction))
        requires
            old(srv).inv(),
            old(srv).users.has_id(id),
        ensures
            die_done(*old(srv), *final(srv), id, *cmd, r),
    {
        if !is_command(cmd, "DIE") {
            return (false, RecyclingAction::Nothing);
        }
        if srv.user_is_oper(id) {
            srv.signal_shutdown = true;
        } else {
            let no_args: Vec<String> = Vec::new();
            let txt = Some("Permission Denied- You're not an IRC operator.".to_owned());
            let ghost mv = crate::numericreply::numeric_view(NumericReply::ERR_NOPRIVILEGES, Some(srv.settings.name@), srv.user(id).nickname@, strings_view(no_args@), crate::messages::opt_view(txt));
            srv.send_numeric(id, NumericReply::ERR_NOPRIVILEGES, no_args, txt);
            assert(queues_pushed(old(srv).users.users@, srv.users.users@, set![id], mv));
        }
        (true, RecyclingAction::Nothing)
    }
}

/// USER after registration: `ERR_ALREADYREGISTERED`.
pub struct CmdUser;

impl CmdUser {
    pub fn handle_command(&self, srv: &mut ServerData, id: u128, cmd: &IRCMessage) -> (r: (bool, RecyclingAction))
        requires
            old(srv).inv(),
            old(srv).users.has_id(id),
        ensures
            user_done(*old(srv), *final(srv), id, *cmd, r),
    {
        if !is_command(cmd, "USER") {
            return (false, RecyclingAction::Nothing);
        }
        let no_args: Vec<String> = Vec::new();
        let txt = Some("You may not reregister.".to_owned());
        let ghost mv = crate::numericreply::numeric_view(NumericReply::ERR_ALREADYREGISTERED, Some(srv.settings.name@), srv.user(id).nickname@, strings_view(no_args@), crate::messages::opt_view(txt));
        srv.send_numeric(id, NumericReply::ERR_ALREADYREGISTERED, no_args, txt);
        assert(queues_pushed(old(srv).users.users@, srv.users.users@, set![id], mv));
        (true, RecyclingAction::Nothing)
    }
}

/// TIME: answers `RPL_TIME` with the server's name and its current time.
pub struct CmdTime;

impl CmdTime {
    pub fn handle_command(&self, srv: &mut ServerData, id: u128, cmd: &IRCMessage) -> (r: (bool, RecyclingAction))
        requires
            old(srv).inv(),
            old(srv).users.has_id(id),
        ensures
            time_done(*old(srv), *final(srv), id, *cmd, r),
    {
        if !is_command(cmd, "TIME") {
            return (false, RecyclingAction::Nothing);
        }
        let now = crate::logging::local_time(RFC822_FORMAT);
        let name = srv.settings.name.clone();
        let a = one_arg(name);
        let txt = Some(now);
        let ghost mv = crate::numericreply::numeric_view(NumericReply::RPL_TIME, Some(srv.settings.name@), srv.user(id).nickname@, strings_view(a@), crate::messages::opt_view(txt));
        srv.send_numeric(id, NumericReply::RPL_TIME, a, txt);
        assert(queues_pushed(old(srv).users.users@, srv.users.users@, set![id], mv));
        assert(mv.args =~= seq![old(srv).user(id).nickname@, old(srv).settings.name@]);
        (true, RecyclingAction::Nothing)
    }
}

/// The decimal digits of a number, most significant first.
pub open spec fn decimal(n: nat) -> Seq<char>
    decreases n,
{
    if n < 10 {
        seq![crate::numericreply::digit(n as int)]
    } else {
        decimal(n / 10).push(crate::numericreply::digit((n % 10) as int))
    }
}

/// Writes a number in decimal.
pub fn usize_to_string(n: usize) -> (r: String)
    ensures
        r@ == decimal(n as nat),
    decreases n,
{
    if n < 10 {
        let mut s = String::new();
        push_char(&mut s, ((n as u8) + 48) as char);
        assert(s@ =~= decimal(n as nat));
        s
    } else {
        let mut s = usize_to_string(n / 10);
        push_char(&mut s, (((n % 10) as u8) + 48) as char);
        s
    }
}

impl ServerData {
    /// Sends `RPL_LIST` for channel `i`: its name, member count and topic.
    fn send_list_line(&mut self, id: u128, i: usize)
        requires
            old(self).inv(),
            old(self).users.has_id(id),
            i < old(self).channels.chans@.len(),
        ensures
            final(self).inv(),
            final(self).channels == old(self).channels,
            final(self).settings == old(self).settings,
            final(self).opers == old(self).opers,
            final(self).signal_shutdown == old(self).signal_shutdown,
            forall|x: u128| #[trigger] final(self).users.has_id(x) == old(self).users.has_id(x),
            exists|m: MsgView|
                queues_pushed(old(self).users.users@, final(self).users.users@, set![id], m)
                    && m.command == crate::numericreply::three_digits(322)
                    && m.args.len() == 3
                    && m.args[1] == old(self).channels.chans@[i as int].name@
                    && m.args[2] == decimal(old(self).channels.chans@[i as int].members@.len())
                    && m.suffix == Some(old(self).channels.chans@[i as int].topic@),
    {
        let c = &self.channels.chans[i];
        let mut a: Vec<String> = Vec::new();
        a.push(c.name.clone());
        a.push(usize_to_string(c.member_count()));
        let topic = c.topic.clone();
        let nick = self.nick_of(id);
        let ghost av = strings_view(a@);
        let ghost tv = crate::messages::opt_view(Some(topic));
        let ghost mv = crate::numericreply::numeric_view(NumericReply::RPL_LIST, Some(self.settings.name@), self.user(id).nickname@, av, tv);
        self.send_numeric(id, NumericReply::RPL_LIST, a, Some(topic));
        assert(queues_pushed(old(self).users.users@, self.users.users@, set![id], mv));
        assert(mv.args == seq![nick@] + av);
        assert(mv.args[1] == av[0]);
        assert(mv.args[2] == av[1]);
    }
}

/// Some channel named `name` is visible to user `id`.
pub open spec fn names_visible(chans: Seq<Channel>, name: Seq<char>, id: u128) -> bool {
    exists|q: int| 0 <= q < chans.len() && (#[trigger] chans[q]).name@ == name && visible_to(chans[q], id)
}

/// Whether channel `c` has a `RPL_LIST` line among `ms`.
pub open spec fn listed(ms: Seq<MsgView>, c: Channel) -> bool {
    exists|j: int| 0 <= j < ms.len() && (#[trigger] ms[j]).command == crate::numericreply::three_digits(322)
        && ms[j].args.len() == 3 && ms[j].args[1] == c.name@ && ms[j].args[2] == decimal(c.members@.len())
        && ms[j].suffix == Some(c.topic@)
}

/// LIST: one `RPL_LIST` line for each channel that the user may see (a secret channel
/// only to its members), then `RPL_LISTEND`.
pub struct CmdList;

impl CmdList {
    pub fn handle_command(&self, srv: &mut ServerData, id: u128, cmd: &IRCMessage) -> (r: (bool, RecyclingAction))
        requires
            old(srv).inv(),
            old(srv).users.has_id(id),
        ensures
            list_done(*old(srv), *final(srv), id, *cmd, r),
    {
        if !is_command(cmd, "LIST") {
            return (false, RecyclingAction::Nothing);
        }
        let ghost start = srv.users.users@;
        let ghost chans = srv.channels.chans@;
        proof {
            lemma_append_none(start, id);
        }
        let ghost mut ms: Seq<MsgView> = Seq::empty();
        let ghost mut idx: Seq<int> = Seq::empty();
        if cmd.args.len() == 0 {
            let mut i: usize = 0;
            while i < srv.channels.chans.len()
                invariant
                    srv.inv(),
                    srv.users.has_id(id),
                    srv.channels.chans@ == chans,
                    chans == old(srv).channels.chans@,
                    srv.channels == old(srv).channels,
                    start == old(srv).users.users@,
                    forall|x: u128| #[trigger] srv.users.has_id(x) == old(srv).users.has_id(x),
                    i <= chans.len(),
                    queues_appended(start, srv.users.users@, id, ms),
                    forall|j: int| 0 <= j < ms.len() ==> (#[trigger] ms[j]).command == crate::numericreply::three_digits(322),
                    forall|j: int| 0 <= j < ms.len() ==> names_visible(chans, (#[trigger] ms[j]).args[1], id),
                    forall|q: int| 0 <= q < i && visible_to(#[trigger] chans[q], id) ==> listed(ms, chans[q]),
                    idx.len() == ms.len(),
                    forall|j: int| 0 <= j < ms.len() ==> 0 <= #[trigger] idx[j] < i && ms[j].args[1] == chans[idx[j]].name@,
                    forall|j1: int, j2: int| 0 <= j1 < j2 < idx.len() ==> #[trigger] idx[j1] < #[trigger] idx[j2],
                decreases chans.len() - i,
            {
                let c = &srv.channels.chans[i];
                let visible = !c.modes.get('s') || c.has_member(id);
                if visible {
                    let ghost before = srv.users.users@;
                    srv.send_list_line(id, i);
                    proof {
                        let m = choose|m: MsgView| queues_pushed(before, srv.users.users@, set![id], m)
                            && m.command == crate::numericreply::three_digits(322) && m.args.len() == 3
                            && m.args[1] == chans[i as int].name@
                            && m.args[2] == decimal(chans[i as int].members@.len())
                            && m.suffix == Some(chans[i as int].topic@);
                        lemma_append_one(start, before, srv.users.users@, id, ms, m);
                        let ms0 = ms;
                        ms = ms.push(m);
                        idx = idx.push(i as int);
                        assert forall|q: int| 0 <= q < i + 1 && visible_to(#[trigger] chans[q], id) implies listed(ms, chans[q]) by {
                            if q < i {
                                assert(listed(ms0, chans[q]));
                                let j = choose|j: int| 0 <= j < ms0.len() && (#[trigger] ms0[j]).command == crate::numericreply::three_digits(322)
                                    && ms0[j].args.len() == 3 && ms0[j].args[1] == chans[q].name@
                                    && ms0[j].args[2] == decimal(chans[q].members@.len()) && ms0[j].suffix == Some(chans[q].topic@);
                                assert(ms[j] == ms0[j]);
                            } else {
                                assert(ms[ms0.len() as int] == m);
                            }
                        }
                        assert forall|j: int| 0 <= j < ms.len() implies names_visible(chans, (#[trigger] ms[j]).args[1], id) by {
                            if j < ms0.len() {
                                assert(ms[j] == ms0[j]);
                            } else {
                                assert(chans[i as int].name@ == ms[j].args[1]);
                                assert(visible_to(chans[i as int], id));
                            }
                        }
                    }
                }
                i = i + 1;
            }
        } else {
            let names = split_on(cmd.args[0].as_str(), ',');
            let mut k: usize = 0;
            while k < names.len()
                invariant
                    srv.inv(),
                    srv.users.has_id(id),
                    srv.channels == old(srv).channels,
                    forall|x: u128| #[trigger] srv.users.has_id(x) == old(srv).users.has_id(x),
                    k <= names@.len(),
                    chans == old(srv).channels.chans@,
                    start == old(srv).users.users@,
                    queues_appended(start, srv.users.users@, id, ms),
                    forall|j: int| 0 <= j < ms.len() ==> (#[trigger] ms[j]).command == crate::numericreply::three_digits(322),
                    forall|j: int| 0 <= j < ms.len() ==> names_visible(chans, (#[trigger] ms[j]).args[1], id),
                decreases names.len() - k,
            {
                match srv.channels.index_of(names[k].as_str()) {
                    Some(i) => {
                        let c = &srv.channels.chans[i];
                        if !c.modes.get('s') || c.has_member(id) {
                            let ghost before = srv.users.users@;
                            srv.send_list_line(id, i);
                            proof {
                                let m = choose|m: MsgView| queues_pushed(before, srv.users.users@, set![id], m)
                                    && m.command == crate::numericreply::three_digits(322) && m.args.len() == 3
                                    && m.args[1] == chans[i as int].name@
                                    && m.args[2] == decimal(chans[i as int].members@.len())
                                    && m.suffix == Some(chans[i as int].topic@);
                                lemma_append_one(start, before, srv.users.users@, id, ms, m);
                                let ms0 = ms;
                                ms = ms.push(m);
                                assert forall|j: int| 0 <= j < ms.len() implies names_visible(chans, (#[trigger] ms[j]).args[1], id) by {
                                    if j < ms0.len() {
                                        assert(ms[j] == ms0[j]);
                                    } else {
                                        assert(visible_to(chans[i as int], id));
                                    }
                                }
                                assert forall|j: int| 0 <= j < ms.len() implies (#[trigger] ms[j]).command == crate::numericreply::three_digits(322) by {
                                    if j < ms0.len() {
                                        assert(ms[j] == ms0[j]);
                                    }
                                }
                            }
                        }
                    },
                    None => {},
                }
                k = k + 1;
            }
        }
        let ghost before = srv.users.users@;
        let txt = Some("End of LIST.".to_owned());
        let ghost tv = crate::messages::opt_view(txt);
        let no_args: Vec<String> = Vec::new();
        let ghost av = strings_view(no_args@);
        let ghost mv = crate::numericreply::numeric_view(NumericReply::RPL_LISTEND, Some(srv.settings.name@), srv.user(id).nickname@, av, tv);
        let ghost ms0 = ms;
        srv.send_numeric(id, NumericReply::RPL_LISTEND, no_args, txt);
        proof {
            lemma_append_one(start, before, srv.users.users@, id, ms0, mv);
            let ms1 = ms0.push(mv);
            assert forall|j: int| 0 <= j < ms1.len() - 1 implies (#[trigger] ms1[j]).command == crate::numericreply::three_digits(322) by {
                assert(ms1[j] == ms0[j]);
            }
            assert forall|j: int| 0 <= j < ms1.len() - 1 implies names_visible(chans, (#[trigger] ms1[j]).args[1], id) by {
                assert(ms1[j] == ms0[j]);
            }
            assert(ms1.last() == mv);
            if cmd@.args.len() == 0 {
                assert forall|q: int| 0 <= q < chans.len() && visible_to(#[trigger] chans[q], id) implies listed(ms1, chans[q]) by {
                    assert(listed(ms0, chans[q]));
                    let j = choose|j: int| 0 <= j < ms0.len() && (#[trigger] ms0[j]).command == crate::numericreply::three_digits(322)
                        && ms0[j].args.len() == 3 && ms0[j].args[1] == chans[q].name@
                        && ms0[j].args[2] == decimal(chans[q].members@.len()) && ms0[j].suffix == Some(chans[q].topic@);
                    assert(ms1[j] == ms0[j]);
                }
                assert forall|j: int| 0 <= j < ms1.len() - 1 implies (#[trigger] ms1[j]).command == crate::numericreply::three_digits(322) by {
                    assert(ms1[j] == ms0[j]);
                }
                assert forall|j: int| 0 <= j < ms1.len() - 1 implies names_visible(chans, (#[trigger] ms1[j]).args[1], id) by {
                    assert(ms1[j] == ms0[j]);
                }
                assert(ms1.last() == mv);
                assert forall|j1: int, j2: int| 0 <= j1 < j2 < ms1.len() - 1 implies (#[trigger] ms1[j1]).args[1]
                    != (#[trigger] ms1[j2]).args[1] by {
                    assert(ms1[j1] == ms0[j1] && ms1[j2] == ms0[j2]);
                    assert(idx[j1] < idx[j2]);
                    assert(chans[idx[j1]].key() != chans[idx[j2]].key());
                }
            }
        }
        (true, RecyclingAction::Nothing)
    }
}

/// NAMES: for each channel of a comma-separated list that the user may see (a secret
/// channel only to its members), the batched names and `RPL_ENDOFNAMES`; for a channel
/// that the user may not see, or that does not exist, only `RPL_ENDOFNAMES`. Without
/// argument, the names of every channel that the user may see.
pub struct CmdNames;

impl CmdNames {
    pub fn handle_command(&self, srv: &mut ServerData, id: u128, cmd: &IRCMessage) -> (r: (bool, RecyclingAction))
        requires
            old(srv).inv(),
            old(srv).users.has_id(id),
        ensures
            names_done(*old(srv), *final(srv), id, *cmd, r),
    {
        if !is_command(cmd, "NAMES") {
            return (false, RecyclingAction::Nothing);
        }
        if cmd.args.len() == 0 {
            let mut i: usize = 0;
            while i < srv.channels.chans.len()
                invariant
                    srv.inv(),
                    srv.users.has_id(id),
                    srv.channels == old(srv).channels,
                    forall|x: u128| #[trigger] srv.users.has_id(x) == old(srv).users.has_id(x),
                decreases srv.channels.chans.len() - i,
            {
                let c = &srv.channels.chans[i];
                if !c.modes.get('s') || c.has_member(id) {
                    srv.send_names(id, i);
                }
                i = i + 1;
            }
            return (true, RecyclingAction::Nothing);
        }
        let names = split_on(cmd.args[0].as_str(), ',');
        let ghost ps = pieces(cmd@.args[0], ',');
        let ghost start = srv.users.users@;
        let mut k: usize = 0;
        while k < names.len()
            invariant
                srv.inv(),
                srv.users.has_id(id),
                srv.channels == old(srv).channels,
                forall|x: u128| #[trigger] srv.users.has_id(x) == old(srv).users.has_id(x),
                k <= names@.len(),
                names@.map_values(|x: String| x@) == ps,
                start == old(srv).users.users@,
                k == 0 ==> *srv == *old(srv),
                k == 1 && names@.len() == 1 ==> forall|q: int|
                    0 <= q < srv.channels.chans@.len() && (#[trigger] srv.channels.chans@[q]).key() == fold(ps[0])
                        && !visible_to(srv.channels.chans@[q], id) ==> exists|m: MsgView|
                        queues_pushed(start, srv.users.users@, set![id], m)
                            && m.command == crate::numericreply::three_digits(366),
                k == 1 && names@.len() == 1 ==> forall|q: int|
                    0 <= q < srv.channels.chans@.len() && (#[trigger] srv.channels.chans@[q]).key() == fold(ps[0])
                        && visible_to(srv.channels.chans@[q], id) ==> names_sent(*old(srv), start, srv.users.users@, id, srv.channels.chans@[q]),
            decreases names.len() - k,
        {
            let name = &names[k];
            assert(ps[k as int] == name@);
            let ghost before = srv.users.users@;
            let shown = match srv.channels.index_of(name.as_str()) {
                Some(i) => {
                    proof {
                        assert forall|q: int| 0 <= q < srv.channels.chans@.len() && (#[trigger] srv.channels.chans@[q]).key() == fold(name@)
                            implies q == i as int by {
                            if q != i as int {
                                assert(srv.channels.chans@[q].key() != srv.channels.chans@[i as int].key());
                            }
                        }
                    }
                    let c = &srv.channels.chans[i];
                    if !c.modes.get('s') || c.has_member(id) {
                        let ghost s0 = *srv;
                        srv.send_names(id, i);

                        true
                    } else {
                        false
                    }
                },
                None => false,
            };
            if !shown {
                let txt = Some("End of NAMES list.".to_owned());
                let ghost tv = crate::messages::opt_view(txt);
                let a = one_arg(name.clone());
                let ghost av = strings_view(a@);
                let ghost mv = crate::numericreply::numeric_view(NumericReply::RPL_ENDOFNAMES, Some(srv.settings.name@), srv.user(id).nickname@, av, tv);
                srv.send_numeric(id, NumericReply::RPL_ENDOFNAMES, a, txt);
                assert(queues_pushed(before, srv.users.users@, set![id], mv));
            }
            k = k + 1;
        }
        (true, RecyclingAction::Nothing)
    }
}

/// Whether user `id` may set the topic of channel `c`: a member, and under `+t` a
/// channel operator or a network operator.
pub open spec fn may_set_topic(c: Channel, id: u128, oper: bool) -> bool {
    c.has(id) && (!crate::modes::Modes::has(c.modes@, 't') || oper || (c.mode_of(id) matches Some(m) && m.op))
}

/// TOPIC: with a channel, sends its topic; with a channel and a text, sets the topic
/// when allowed and tells the members.
pub struct CmdTopic;

impl CmdTopic {
    pub fn handle_command(&self, srv: &mut ServerData, id: u128, cmd: &IRCMessage) -> (r: (bool, RecyclingAction))
        requires
            old(srv).inv(),
            old(srv).users.has_id(id),
        ensures
            topic_done(*old(srv), *final(srv), id, *cmd, r),
    {
        if !is_command(cmd, "TOPIC") {
            return (false, RecyclingAction::Nothing);
        }
        match cmd.as_nparams(1, 1) {
            None => {
                send_needmoreparams(srv, id, "TOPIC");
            },
            Some(args) => {
                let name = &args[0];
                proof {
                    let m = cmd@;
                    assert(strings_view(args@)[0] == args@[0]@);
                    assert(m.args.len() > 0 ==> m.args.take(args@.len() - 1)[0] == m.args[0] || args@.len() == 1);
                }
                match srv.channels.index_of(name.as_str()) {
                    None => {
                        srv.send_numeric(id, NumericReply::ERR_NOSUCHCHANNEL, one_arg(name.clone()), Some("No such channel.".to_owned()));
                    },
                    Some(i) => {
                        proof {
                            assert forall|q: int| 0 <= q < srv.channels.chans@.len() && (#[trigger] srv.channels.chans@[q]).key() == fold(name@)
                                implies q == i as int by {
                                if q != i as int {
                                    assert(srv.channels.chans@[q].key() != srv.channels.chans@[i as int].key());
                                }
                            }
                        }
                        let c = &srv.channels.chans[i];
                        let member = c.has_member(id);
                        if args.len() == 1 {
                            let a = one_arg(name.clone());
                            let ghost av = strings_view(a@);
                            let ghost nick = srv.user(id).nickname@;
                            let ghost sname = srv.settings.name@;
                            if c.modes.get('s') && !member {
                                let txt = Some("You're not on that channel.".to_owned());
                                let ghost mv = crate::numericreply::numeric_view(NumericReply::ERR_NOTONCHANNEL, Some(sname), nick, av, crate::messages::opt_view(txt));
                                srv.send_numeric(id, NumericReply::ERR_NOTONCHANNEL, a, txt);
                                assert(queues_pushed(old(srv).users.users@, srv.users.users@, set![id], mv));
                            } else {
                                let topic = c.topic.clone();
                                if topic.as_str().unicode_len() == 0 {
                                    let txt = Some("No topic is set.".to_owned());
                                    let ghost mv = crate::numericreply::numeric_view(NumericReply::RPL_NOTOPIC, Some(sname), nick, av, crate::messages::opt_view(txt));
                                    srv.send_numeric(id, NumericReply::RPL_NOTOPIC, a, txt);
                                    assert(queues_pushed(old(srv).users.users@, srv.users.users@, set![id], mv));
                                } else {
                                    let txt = Some(topic);
                                    let ghost mv = crate::numericreply::numeric_view(NumericReply::RPL_TOPIC, Some(sname), nick, av, crate::messages::opt_view(txt));
                                    srv.send_numeric(id, NumericReply::RPL_TOPIC, a, txt);
                                    assert(queues_pushed(old(srv).users.users@, srv.users.users@, set![id], mv));
                                }
                            }
                        } else {
                            let locked = c.modes.get('t');
                            let chanop = match c.member_mode(id) {
                                Some(m) => m.op,
                                None => false,
                            };
                            let oper = srv.user_is_oper(id);
                            proof {
                                let m = cmd@;
                                let f = crate::messages::fuse(m.args.skip(1), m.suffix);
                                assert(strings_view(args@) == m.args.take(1).push(f));
                                assert(m.args.take(1).push(f)[1] == f);
                                assert(strings_view(args@)[1] == args@[1]@);
                                assert(m.args.take(1).push(f)[0] == m.args[0]);
                            }
                            if !member {
                                srv.send_numeric(id, NumericReply::ERR_NOTONCHANNEL, one_arg(name.clone()), Some("You're not on that channel.".to_owned()));
                            } else if locked && !chanop && !oper {
                                srv.send_numeric(id, NumericReply::ERR_CHANOPRIVSNEEDED, one_arg(name.clone()), Some("You're not channel operator.".to_owned()));
                            } else {
                                let topic = args[1].clone();
                                let ghost before = *srv;
                                srv.channels.set_topic_at(i, topic.clone());
                                proof {
                                    ServerData::lemma_same_members_keeps_inv(before, *srv);
                                }
                                let ids = srv.channels.chans[i].member_ids();
                                proof {
                                    let ms = srv.channels.chans@[i as int].members@;
                                    assert(srv.channels.chans@[i as int].wf());
                                    assert forall|a: int, b: int| 0 <= a < ids@.len() && 0 <= b < ids@.len() && a != b implies ids@[a] != ids@[b] by {
                                        assert(ids@[a] == ms[a].id);
                                        assert(ids@[b] == ms[b].id);
                                    }
                                }
                                let msg = IRCMessage {
                                    prefix: Some(srv.fullname_of(id)),
                                    command: "TOPIC".to_owned(),
                                    args: one_arg(name.clone()),
                                    suffix: Some(topic),
                                };
                                srv.send_to_ids(&ids, &msg, None);
                            }
                        }
                    },
                }
            },
        }
        (true, RecyclingAction::Nothing)
    }
}

fn sign_letter(remove: bool, c: char) -> (r: String)
    ensures
        r@ == seq![if remove { '-' } else { '+' }, c],
{
    let mut t = String::new();
    push_char(&mut t, if remove { '-' } else { '+' });
    push_char(&mut t, c);
    assert(t@ =~= seq![if remove { '-' } else { '+' }, c]);
    t
}

/// The sign of a mode word and where its letters start: `-` removes, `+` or no sign adds.
pub open spec fn word_sign(w: Seq<char>) -> (bool, int) {
    if w.len() > 0 && w[0] == '-' {
        (true, 1)
    } else if w.len() > 0 && w[0] == '+' {
        (false, 1)
    } else {
        (false, 0)
    }
}

/// One letter of a user's own MODE request: `i` is set or cleared, `o` can only be
/// cleared, other letters change nothing.
pub open spec fn user_letter(f: Seq<bool>, c: char, remove: bool) -> Seq<bool> {
    if c == 'i' {
        f.update(8, !remove)
    } else if c == 'o' && remove {
        f.update(14, false)
    } else {
        f
    }
}

/// The user's flags after the mode words `ws[w..]`.
pub open spec fn user_scan(f: Seq<bool>, ws: Seq<Seq<char>>, w: int) -> Seq<bool>
    decreases (ws.len() - w) as nat, 0nat,
{
    if w < 0 || w >= ws.len() {
        f
    } else {
        user_rest(f, ws, ws[w], word_sign(ws[w]).1, word_sign(ws[w]).0, w + 1)
    }
}

/// The user's flags after the letters `cur[k..]`, then the mode words `ws[w..]`.
pub open spec fn user_rest(f: Seq<bool>, ws: Seq<Seq<char>>, cur: Seq<char>, k: int, remove: bool, w: int) -> Seq<bool>
    decreases (ws.len() - w) as nat, (cur.len() - k) as nat + 1,
{
    if 0 <= k < cur.len() {
        user_rest(user_letter(f, cur[k], remove), ws, cur, k + 1, remove, w)
    } else {
        user_scan(f, ws, w)
    }
}

/// Whether `c` is a channel flag that MODE may change.
pub open spec fn is_chan_flag(c: char) -> bool {
    c == 's' || c == 'n' || c == 'm' || c == 't'
}

/// The channel's flags after the mode words `ws[w..]`: a word starting with `+` or `-`
/// sets or clears its channel flags; `v` and `o` each take the next word as a nickname.
pub open spec fn chan_scan(f: Seq<bool>, ws: Seq<Seq<char>>, w: int) -> Seq<bool>
    decreases (ws.len() - w) as nat, 0nat,
{
    if w < 0 || w >= ws.len() {
        f
    } else if ws[w].len() > 0 && (ws[w][0] == '+' || ws[w][0] == '-') {
        chan_rest(f, ws, ws[w], 1, ws[w][0] == '-', w + 1)
    } else {
        chan_scan(f, ws, w + 1)
    }
}

/// The channel's flags after the letters `cur[k..]`, then the mode words `ws[w..]`.
pub open spec fn chan_rest(f: Seq<bool>, ws: Seq<Seq<char>>, cur: Seq<char>, k: int, remove: bool, w: int) -> Seq<bool>
    decreases (ws.len() - w) as nat, (cur.len() - k) as nat + 1,
{
    if 0 <= k < cur.len() {
        if (cur[k] == 'v' || cur[k] == 'o') && 0 <= w < ws.len() {
            chan_rest(f, ws, cur, k + 1, remove, w + 1)
        } else if is_chan_flag(cur[k]) {
            chan_rest(f.update(crate::modes::slot_of(cur[k])->0, !remove), ws, cur, k + 1, remove, w)
        } else {
            chan_rest(f, ws, cur, k + 1, remove, w)
        }
    } else {
        chan_scan(f, ws, w)
    }
}

/// Some word of `ws` after the first folds like the nickname of the registered user `x`.
pub open spec fn member_named(us: Seq<UserData>, ws: Seq<Seq<char>>, x: u128) -> bool {
    exists|w: int, p: int| 1 <= w < ws.len() && 0 <= p < us.len() && (#[trigger] us[p]).id == x
        && crate::users::nick_key(us[p]) == fold(#[trigger] ws[w])
}

impl ServerData {
    /// Applies `+flags`/`-flags` words to the modes of user `id`. The user may toggle `i`
    /// and drop `o`; `o` cannot be gained and `a` cannot be changed this way. Each change
    /// is confirmed with a `MODE` message; an unknown letter gets `ERR_UMODEUNKNOWNFLAG`.
    fn update_user_mode(&mut self, id: u128, words: &Vec<String>, from: usize)
        requires
            old(self).inv(),
            old(self).users.has_id(id),
        ensures
            final(self).inv(),
            final(self).channels == old(self).channels,
            forall|x: u128| #[trigger] final(self).users.has_id(x) == old(self).users.has_id(x),
            is_oper(final(self).user(id)) ==> is_oper(old(self).user(id)),
            crate::modes::Modes::has(final(self).user(id).modes@, 'a') == crate::modes::Modes::has(old(self).user(id).modes@, 'a'),
            final(self).user(id).modes@ == user_scan(old(self).user(id).modes@, strings_view(words@), from as int),
    {
        let ghost ws = strings_view(words@);
        let ghost target = user_scan(old(self).user(id).modes@, ws, from as int);
        let mut w: usize = from;
        while w < words.len()
            invariant
                self.inv(),
                self.users.has_id(id),
                self.channels == old(self).channels,
                forall|x: u128| #[trigger] self.users.has_id(x) == old(self).users.has_id(x),
                is_oper(self.user(id)) ==> is_oper(old(self).user(id)),
                crate::modes::Modes::has(self.user(id).modes@, 'a') == crate::modes::Modes::has(old(self).user(id).modes@, 'a'),
                ws == strings_view(words@),
                w >= from,
                user_scan(self.user(id).modes@, ws, w as int) == target,
            decreases words.len() - w,
        {
            let chars = crate::util::chars_of(words[w].as_str());
            let mut remove = false;
            let mut k: usize = 0;
            if chars.len() > 0 && chars[0] == '-' {
                remove = true;
                k = 1;
            } else if chars.len() > 0 && chars[0] == '+' {
                k = 1;
            }
            assert(chars@ == ws[w as int]);
            assert(word_sign(chars@) == (remove, k as int));
            while k < chars.len()
                invariant
                    self.inv(),
                    self.users.has_id(id),
                    self.channels == old(self).channels,
                    forall|x: u128| #[trigger] self.users.has_id(x) == old(self).users.has_id(x),
                    is_oper(self.user(id)) ==> is_oper(old(self).user(id)),
                    crate::modes::Modes::has(self.user(id).modes@, 'a') == crate::modes::Modes::has(old(self).user(id).modes@, 'a'),
                    ws == strings_view(words@),
                    w < words@.len(),
                    w >= from,
                    k <= chars@.len(),
                    user_rest(self.user(id).modes@, ws, chars@, k as int, remove, w + 1) == target,
                decreases chars.len() - k,
            {
                let c = chars[k];
                let ghost cur = self.user(id).modes@;
                if c == 'i' || (c == 'o' && remove) {
                    let ghost before = *self;
                    self.users.set_user_mode(id, c, !remove);
                    proof {
                        ServerData::lemma_identity_keeps_inv(before, *self);
                        let q = choose|q: int| 0 <= q < before.users.users@.len() && (#[trigger] before.users.users@[q]).id == id;
                        ServerData::lemma_user_of(before.users.users@, q);
                        ServerData::lemma_user_of(self.users.users@, q);
                        assert(self.users.users@[q].id == id);
                        assert(crate::modes::slot_of('i') == Some(8int));
                        assert(crate::modes::slot_of('o') == Some(14int));
                        assert(crate::modes::slot_of('a') == Some(0int));
                    }
                    let nick = self.nick_of(id);
                    let mut a: Vec<String> = Vec::new();
                    a.push(nick);
                    a.push(sign_letter(remove, c));
                    let msg = IRCMessage { prefix: Some(self.fullname_of(id)), command: "MODE".to_owned(), args: a, suffix: None };
                    let ghost before2 = *self;
                    self.send_to(id, msg);
                    proof {
                        let q = choose|q: int| 0 <= q < before2.users.users@.len() && (#[trigger] before2.users.users@[q]).id == id;
                        ServerData::lemma_user_of(before2.users.users@, q);
                        ServerData::lemma_user_of(self.users.users@, q);
                    }
                } else if c == 'o' || c == 'a' {
                    // not changed by MODE
                } else {
                    let mut t = String::new();
                    push_char(&mut t, c);
                    let ghost before2 = *self;
                    self.send_numeric(id, NumericReply::ERR_UMODEUNKNOWNFLAG, one_arg(t), Some("Unknown MODE flag.".to_owned()));
                    proof {
                        let q = choose|q: int| 0 <= q < before2.users.users@.len() && (#[trigger] before2.users.users@[q]).id == id;
                        ServerData::lemma_user_of(before2.users.users@, q);
                        ServerData::lemma_user_of(self.users.users@, q);
                    }
                }
                assert(self.user(id).modes@ == user_letter(cur, c, remove));
                k = k + 1;
            }
            w = w + 1;
        }
    }

    /// Applies `+flags`/`-flags` words to channel `i`: `v` and `o` take the next word as
    /// the nickname of a member; `s`, `n`, `m`, `t` are channel flags; another letter gets
    /// `ERR_UNKNOWNMODE`. Returns the `MODE` confirmations to tell the members.
    fn update_chan_mode(&mut self, id: u128, i: usize, words: &Vec<String>) -> (r: Vec<IRCMessage>)
        requires
            old(self).inv(),
            old(self).users.has_id(id),
            i < old(self).channels.chans@.len(),
            words@.len() > 0,
        ensures
            final(self).inv(),
            same_members(old(self).channels.chans@, final(self).channels.chans@),
            forall|x: u128| #[trigger] final(self).users.has_id(x) == old(self).users.has_id(x),
            same_but_queues(old(self).users.users@, final(self).users.users@),
            final(self).channels.chans@[i as int].modes@ == chan_scan(
                old(self).channels.chans@[i as int].modes@,
                strings_view(words@),
                1,
            ),
            forall|q: int| 0 <= q < old(self).channels.chans@.len() && q != i ==> #[trigger] final(self).channels.chans@[q].modes
                == old(self).channels.chans@[q].modes,
            forall|q: int| 0 <= q < old(self).channels.chans@[i as int].members@.len()
                && (#[trigger] final(self).channels.chans@[i as int].members@[q]) != old(self).channels.chans@[i as int].members@[q]
                ==> member_named(old(self).users.users@, strings_view(words@), old(self).channels.chans@[i as int].members@[q].id),
            forall|j: int| 0 <= j < r@.len() ==> (#[trigger] r@[j])@.command == "MODE"@ && r@[j]@.args.len() >= 2
                && r@[j]@.args[0] == old(self).channels.chans@[i as int].name@,
    {
        let ghost ws = strings_view(words@);
        let ghost goal = chan_scan(old(self).channels.chans@[i as int].modes@, ws, 1);
        let chan_name = self.channels.chans[i].name.clone();
        let mut out: Vec<IRCMessage> = Vec::new();
        let mut w: usize = 1;
        while w < words.len()
            invariant
                self.inv(),
                self.users.has_id(id),
                i < self.channels.chans@.len(),
                same_members(old(self).channels.chans@, self.channels.chans@),
                forall|x: u128| #[trigger] self.users.has_id(x) == old(self).users.has_id(x),
                same_but_queues(old(self).users.users@, self.users.users@),
                w <= words@.len(),
                w >= 1,
                ws == strings_view(words@),
                chan_scan(self.channels.chans@[i as int].modes@, ws, w as int) == goal,
                forall|q: int| 0 <= q < old(self).channels.chans@[i as int].members@.len()
                    && (#[trigger] self.channels.chans@[i as int].members@[q]) != old(self).channels.chans@[i as int].members@[q]
                    ==> member_named(old(self).users.users@, ws, old(self).channels.chans@[i as int].members@[q].id),
                forall|j: int| 0 <= j < out@.len() ==> (#[trigger] out@[j])@.command == "MODE"@ && out@[j]@.args.len() >= 2
                    && out@[j]@.args[0] == old(self).channels.chans@[i as int].name@,
                chan_name@ == old(self).channels.chans@[i as int].name@,
                forall|q: int| 0 <= q < old(self).channels.chans@.len() && q != i ==> #[trigger] self.channels.chans@[q].modes
                    == old(self).channels.chans@[q].modes,
            decreases words.len() - w,
        {
            let chars = crate::util::chars_of(words[w].as_str());
            assert(chars@ == ws[w as int]);
            let ghost w0 = w;
            w = w + 1;
            if chars.len() > 0 && (chars[0] == '+' || chars[0] == '-') {
                let remove = chars[0] == '-';
                let mut k: usize = 1;
                while k < chars.len()
                    invariant
                        self.inv(),
                        self.users.has_id(id),
                        i < self.channels.chans@.len(),
                        same_members(old(self).channels.chans@, self.channels.chans@),
                        forall|x: u128| #[trigger] self.users.has_id(x) == old(self).users.has_id(x),
                        same_but_queues(old(self).users.users@, self.users.users@),
                        w0 < w <= words@.len(),
                        ws == strings_view(words@),
                        1 <= k <= chars@.len(),
                        chan_rest(self.channels.chans@[i as int].modes@, ws, chars@, k as int, remove, w as int) == goal,
                        forall|q: int| 0 <= q < old(self).channels.chans@[i as int].members@.len()
                    && (#[trigger] self.channels.chans@[i as int].members@[q]) != old(self).channels.chans@[i as int].members@[q]
                    ==> member_named(old(self).users.users@, ws, old(self).channels.chans@[i as int].members@[q].id),
                forall|j: int| 0 <= j < out@.len() ==> (#[trigger] out@[j])@.command == "MODE"@ && out@[j]@.args.len() >= 2
                    && out@[j]@.args[0] == old(self).channels.chans@[i as int].name@,
                chan_name@ == old(self).channels.chans@[i as int].name@,
                        forall|q: int| 0 <= q < old(self).channels.chans@.len() && q != i ==> #[trigger] self.channels.chans@[q].modes
                            == old(self).channels.chans@[q].modes,
                    decreases chars.len() - k,
                {
                    let c = chars[k];
                    let ghost cur = self.channels.chans@[i as int].modes@;
                    let ghost wk = w;
                    match crate::modes::MembershipMode::from_char(c) {
                        Some(flag) => {
                            if w < words.len() {
                                let nick = words[w].clone();
                                w = w + 1;
                                match self.users.get_uuid_of_nickname(nick.as_str()) {
                                    Some(target) => {
                                        proof {
                                            let u = self.users.by_nick(fold(nick@))->0;
                                            assert(self.users.users@.contains(u));
                                            let p = choose|p: int| 0 <= p < self.users.users@.len() && self.users.users@[p] == u;
                                            assert(old(self).users.users@[p].id == target);
                                            assert(crate::users::nick_key(old(self).users.users@[p]) == fold(nick@));
                                            assert(nick@ == ws[w - 1]);
                                            assert(member_named(old(self).users.users@, ws, target));
                                        }
                                        let ghost before = *self;
                                        let ok = self.channels.set_member_mode_at(i, target, flag, !remove);
                                        proof {
                                            let oc = old(self).channels.chans@[i as int];
                                            let bc = before.channels.chans@[i as int];
                                            let nc = self.channels.chans@[i as int];
                                            assert forall|q: int| 0 <= q < oc.members@.len() && (#[trigger] nc.members@[q]) != oc.members@[q]
                                                implies member_named(old(self).users.users@, ws, oc.members@[q].id) by {
                                                assert(member_ids(bc.members@)[q] == member_ids(oc.members@)[q]);
                                                assert(member_ids(bc.members@).len() == bc.members@.len());
                                                if nc.members@[q] != bc.members@[q] {
                                                    assert(bc.members@[q].id == target);
                                                }
                                            }
                                            ServerData::lemma_same_members_keeps_inv(before, *self);
                                            assert forall|q: int| 0 <= q < old(self).channels.chans@.len() implies {
                                                &&& (#[trigger] self.channels.chans@[q]).name == old(self).channels.chans@[q].name
                                                &&& member_ids(self.channels.chans@[q].members@) == member_ids(old(self).channels.chans@[q].members@)
                                            } by {
                                                assert(before.channels.chans@[q].name == old(self).channels.chans@[q].name);
                                            }
                                        }
                                        if ok {
                                            let mut a: Vec<String> = Vec::new();
                                            a.push(chan_name.clone());
                                            a.push(sign_letter(remove, c));
                                            a.push(nick);
                                            out.push(IRCMessage { prefix: Some(self.fullname_of(id)), command: "MODE".to_owned(), args: a, suffix: None });
                                        } else {
                                            let mut a: Vec<String> = Vec::new();
                                            a.push(nick);
                                            a.push(chan_name.clone());
                                            self.send_numeric(id, NumericReply::ERR_USERNOTINCHANNEL, a, Some("They aren't on that channel.".to_owned()));
                                        }
                                    },
                                    None => {
                                        self.send_numeric(id, NumericReply::ERR_NOSUCHNICK, one_arg(nick), Some("No such nick/channel.".to_owned()));
                                    },
                                }
                            }
                        },
                        None => {
                            if c == 's' || c == 'n' || c == 'm' || c == 't' {
                                let ghost before = *self;
                                self.channels.set_mode_at(i, c, !remove);
                                proof {
                                    ServerData::lemma_same_members_keeps_inv(before, *self);
                                    assert forall|q: int| 0 <= q < old(self).channels.chans@.len() implies {
                                        &&& (#[trigger] self.channels.chans@[q]).name == old(self).channels.chans@[q].name
                                        &&& member_ids(self.channels.chans@[q].members@) == member_ids(old(self).channels.chans@[q].members@)
                                    } by {
                                        assert(before.channels.chans@[q].name == old(self).channels.chans@[q].name);
                                    }
                                }
                                let mut a: Vec<String> = Vec::new();
                                a.push(chan_name.clone());
                                a.push(sign_letter(remove, c));
                                out.push(IRCMessage { prefix: Some(self.fullname_of(id)), command: "MODE".to_owned(), args: a, suffix: None });
                            } else {
                                let mut t = String::new();
                                push_char(&mut t, c);
                                self.send_numeric(id, NumericReply::ERR_UNKNOWNMODE, one_arg(t), Some("is unknown mode char to me.".to_owned()));
                            }
                        },
                    }
                    assert(chan_rest(cur, ws, chars@, k as int, remove, wk as int) == chan_rest(
                        self.channels.chans@[i as int].modes@,
                        ws,
                        chars@,
                        k as int + 1,
                        remove,
                        w as int,
                    ));
                    k = k + 1;
                }
            }
        }
        out
    }
}

/// MODE: reads or changes the modes of the user itself (a network operator may also
/// read another user's; otherwise `ERR_USERSDONTMATCH`), or of a channel the user is
/// in; changing a channel's modes takes a channel operator or a network operator, and
/// the changes are told to the members.
pub struct CmdMode;

impl CmdMode {
    pub fn handle_command(&self, srv: &mut ServerData, id: u128, cmd: &IRCMessage) -> (r: (bool, RecyclingAction))
        requires
            old(srv).inv(),
            old(srv).users.has_id(id),
        ensures
            mode_done(*old(srv), *final(srv), id, *cmd, r),
    {
        if !is_command(cmd, "MODE") {
            return (false, RecyclingAction::Nothing);
        }
        if cmd.args.len() == 0 {
            send_needmoreparams(srv, id, "MODE");
            return (true, RecyclingAction::Nothing);
        }
        let target = &cmd.args[0];
        match srv.users.get_uuid_of_nickname(target.as_str()) {
            Some(other) => {
                if other == id {
                    if cmd.args.len() == 1 {
                        let modes = match srv.users.index_of_uuid(id) {
                            Some(q) => {
                                proof {
                                    ServerData::lemma_user_of(srv.users.users@, q as int);
                                }
                                srv.users.users[q].modes.to_modestring()
                            },
                            None => String::new(),
                        };
                        let no_args: Vec<String> = Vec::new();
                        let txt = Some(modes);
                        let ghost mv = crate::numericreply::numeric_view(NumericReply::RPL_UMODEIS, Some(srv.settings.name@), srv.user(id).nickname@, strings_view(no_args@), crate::messages::opt_view(txt));
                        srv.send_numeric(id, NumericReply::RPL_UMODEIS, no_args, txt);
                        assert(queues_pushed(old(srv).users.users@, srv.users.users@, set![id], mv));
                    } else {
                        srv.update_user_mode(id, &cmd.args, 1);
                    }
                } else if cmd.args.len() == 1 && srv.user_is_oper(id) {
                    let modes = match srv.users.index_of_uuid(other) {
                        Some(q) => srv.users.users[q].modes.to_modestring(),
                        None => String::new(),
                    };
                    srv.send_numeric(id, NumericReply::RPL_UMODEIS, Vec::new(), Some(modes));
                } else {
                    srv.send_numeric(id, NumericReply::ERR_USERSDONTMATCH, Vec::new(), Some("Can't change mode for other users.".to_owned()));
                }
            },
            None => {
                match srv.channels.index_of(target.as_str()) {
                    None => {
                        srv.send_numeric(id, NumericReply::ERR_NOSUCHNICK, one_arg(target.clone()), Some("No such nick/channel.".to_owned()));
                    },
                    Some(i) => {
                        proof {
                            assert forall|q: int| 0 <= q < srv.channels.chans@.len() && (#[trigger] srv.channels.chans@[q]).key() == fold(target@)
                                implies q == i as int by {
                                if q != i as int {
                                    assert(srv.channels.chans@[q].key() != srv.channels.chans@[i as int].key());
                                }
                            }
                        }
                        let c = &srv.channels.chans[i];
                        if !c.has_member(id) {
                            srv.send_numeric(id, NumericReply::ERR_NOTONCHANNEL, one_arg(target.clone()), Some("You're not on that channel.".to_owned()));
                        } else if cmd.args.len() == 1 {
                            let modes = c.modes.to_modestring();
                            let created = usize_or_zero(c.creation_time);
                            let mut a: Vec<String> = Vec::new();
                            a.push(target.clone());
                            a.push(modes);
                            let ghost start = srv.users.users@;
                            proof {
                                lemma_append_none(start, id);
                            }
                            let ghost m1 = crate::numericreply::numeric_view(NumericReply::RPL_CHANNELMODEIS, Some(srv.settings.name@), srv.user(id).nickname@, strings_view(a@), None);
                            srv.send_numeric(id, NumericReply::RPL_CHANNELMODEIS, a, None);
                            let ghost mid = srv.users.users@;
                            proof {
                                lemma_append_one(start, start, mid, id, Seq::empty(), m1);
                            }
                            let mut b: Vec<String> = Vec::new();
                            b.push(target.clone());
                            b.push(usize_to_string(created));
                            let ghost m2 = crate::numericreply::numeric_view(NumericReply::RPL_CREATIONTIME, Some(srv.settings.name@), srv.user(id).nickname@, strings_view(b@), None);
                            srv.send_numeric(id, NumericReply::RPL_CREATIONTIME, b, None);
                            proof {
                                lemma_append_one(start, mid, srv.users.users@, id, Seq::empty().push(m1), m2);
                                let ms = Seq::empty().push(m1).push(m2);
                                assert(ms[0] == m1 && ms[1] == m2);
                                assert(m1.args[2] == strings_view(a@)[1]);
                            }
                        } else {
                            let chanop = match c.member_mode(id) {
                                Some(m) => m.op,
                                None => false,
                            };
                            let oper = srv.user_is_oper(id);
                            if chanop || oper {
                                let msgs = srv.update_chan_mode(id, i, &cmd.args);
                                proof {
                                    let q = choose|q: int| 0 <= q < old(srv).users.users@.len() && (#[trigger] old(srv).users.users@[q]).id == id;
                                    ServerData::lemma_user_of(old(srv).users.users@, q);
                                    ServerData::lemma_user_of(srv.users.users@, q);
                                    assert(srv.users.users@[q].id == id);
                                }
                                let ghost after_modes = srv.channels;
                                let mut k: usize = 0;
                                while k < msgs.len()
                                    invariant
                                        srv.channels == after_modes,
                                        srv.inv(),
                                        srv.users.has_id(id),
                                        i < srv.channels.chans@.len(),
                                        same_members(old(srv).channels.chans@, srv.channels.chans@),
                                        forall|x: u128| #[trigger] srv.users.has_id(x) == old(srv).users.has_id(x),
                                        is_oper(srv.user(id)) == is_oper(old(srv).user(id)),
                                    decreases msgs.len() - k,
                                {
                                    let ids = srv.channels.chans[i].member_ids();
                                    proof {
                                        let ms = srv.channels.chans@[i as int].members@;
                                        assert(srv.channels.chans@[i as int].wf());
                                        assert forall|a: int, b: int| 0 <= a < ids@.len() && 0 <= b < ids@.len() && a != b implies ids@[a] != ids@[b] by {
                                            assert(ids@[a] == ms[a].id);
                                            assert(ids@[b] == ms[b].id);
                                        }
                                    }
                                    let ghost before = *srv;
                                    srv.send_to_ids(&ids, &msgs[k], None);
                                    proof {
                                        let q = choose|q: int| 0 <= q < before.users.users@.len() && (#[trigger] before.users.users@[q]).id == id;
                                        ServerData::lemma_user_of(before.users.users@, q);
                                        ServerData::lemma_user_of(srv.users.users@, q);
                                    }
                                    k = k + 1;
                                }
                            } else {
                                let a = one_arg(target.clone());
                                let txt = Some("You're not channel operator.".to_owned());
                                let ghost mv = crate::numericreply::numeric_view(NumericReply::ERR_CHANOPRIVSNEEDED, Some(srv.settings.name@), srv.user(id).nickname@, strings_view(a@), crate::messages::opt_view(txt));
                                srv.send_numeric(id, NumericReply::ERR_CHANOPRIVSNEEDED, a, txt);
                                assert(queues_pushed(old(srv).users.users@, srv.users.users@, set![id], mv));
                                assert(mv.args =~= seq![old(srv).user(id).nickname@, target@]);
                            }
                        }
                    },
                }
            },
        }
        (true, RecyclingAction::Nothing)
    }
}

/// A creation time as a count of seconds, negative times read as zero.
fn usize_or_zero(t: i64) -> (r: usize)
    ensures
        r as int == if t < 0 { 0 } else if t as int > usize::MAX as int { usize::MAX as int } else { t as int },
{
    if t < 0 {
        0
    } else if t as u64 > usize::MAX as u64 {
        usize::MAX
    } else {
        t as usize
    }
}

/// WHOIS: the user's identity, server, operator status, idle time and the channels of
/// the user that the asker may see, then `RPL_ENDOFWHOIS`; `ERR_NOSUCHNICK` for an
/// unknown nickname.
pub struct CmdWhois;

impl CmdWhois {
    pub fn handle_command(&self, srv: &mut ServerData, id: u128, cmd: &IRCMessage) -> (r: (bool, RecyclingAction))
        requires
            old(srv).inv(),
            old(srv).users.has_id(id),
        ensures
            whois_done(*old(srv), *final(srv), id, *cmd, r),
    {
        if !is_command(cmd, "WHOIS") {
            return (false, RecyclingAction::Nothing);
        }
        let nick_me = srv.nick_of(id);
        let server_name = srv.settings.name.clone();
        let mut replies: Vec<IRCMessage> = Vec::new();
        if cmd.args.len() == 0 {
            replies.push(NumericReply::ERR_NONICKNAMEGIVEN.into_prefixed_message(nick_me.as_str(), server_name.as_str(), &Vec::new(), Some("No nickname given.".to_owned())));
            srv.send_all(id, &replies);
            proof {
                assert(replies@.map_values(|m: IRCMessage| m@).last() == replies@[0]@);
            }
            return (true, RecyclingAction::Nothing);
        }
        let target = cmd.args[cmd.args.len() - 1].clone();
        assert(target@ == cmd@.args.last());
        match srv.users.get_uuid_of_nickname(target.as_str()) {
            None => {
                replies.push(NumericReply::ERR_NOSUCHNICK.into_prefixed_message(nick_me.as_str(), server_name.as_str(), &one_arg(target.clone()), Some("No such nick/channel.".to_owned())));
            },
            Some(t) => {
                proof {
                    let u = srv.users.by_nick(fold(target@))->0;
                    assert(srv.users.users@.contains(u));
                    let q = choose|q: int| 0 <= q < srv.users.users@.len() && srv.users.users@[q] == u;
                    assert(srv.users.users@[q].id == t);
                }
                let (nick, user, host, realname) = match srv.users.index_of_uuid(t) {
                    Some(q) => {
                        proof {
                            let u = srv.users.by_nick(fold(target@))->0;
                            let k = choose|k: int| 0 <= k < srv.users.users@.len() && srv.users.users@[k] == u;
                            if k != q as int {
                                assert(srv.users.users@[k].id != srv.users.users@[q as int].id);
                            }
                        }
                        let u = &srv.users.users[q];
                        (u.nickname.clone(), u.username.clone(), u.hostname.clone(), u.realname.clone())
                    },
                    None => (String::new(), String::new(), String::new(), String::new()),
                };
                let oper = srv.user_is_oper(t);
                let mut a: Vec<String> = Vec::new();
                a.push(nick.clone());
                a.push(user);
                a.push(host);
                a.push("*".to_owned());
                let ghost av = strings_view(a@);
                replies.push(NumericReply::RPL_WHOISUSER.into_prefixed_message(nick_me.as_str(), server_name.as_str(), &a, Some(realname)));
                assert(replies@[0]@.args =~= seq![nick_me@] + av);
                assert(seq![nick_me@] + av =~= seq![nick_me@, nick@, user@, host@, "*"@]);
                let mut b: Vec<String> = Vec::new();
                b.push(nick.clone());
                b.push(server_name.clone());
                replies.push(NumericReply::RPL_WHOISSERVER.into_prefixed_message(nick_me.as_str(), server_name.as_str(), &b, Some("metallirc".to_owned())));
                if oper {
                    replies.push(NumericReply::RPL_WHOISOPERATOR.into_prefixed_message(nick_me.as_str(), server_name.as_str(), &one_arg(nick.clone()), Some("is an IRC operator".to_owned())));
                }
                let mut c: Vec<String> = Vec::new();
                c.push(nick.clone());
                c.push("0".to_owned());
                replies.push(NumericReply::RPL_WHOISIDLE.into_prefixed_message(nick_me.as_str(), server_name.as_str(), &c, Some("seconds idle".to_owned())));
                let mut list = String::new();
                let mut i: usize = 0;
                while i < srv.channels.chans.len()
                    invariant
                        srv.inv(),
                    decreases srv.channels.chans.len() - i,
                {
                    let ch = &srv.channels.chans[i];
                    match ch.member_mode(t) {
                        Some(m) => {
                            if !ch.modes.get('s') || ch.has_member(id) {
                                if list.as_str().unicode_len() > 0 {
                                    push_char(&mut list, ' ');
                                }
                                match m.prefix() {
                                    Some(p) => push_char(&mut list, p),
                                    None => {},
                                }
                                list.append(ch.name.as_str());
                            }
                        },
                        None => {},
                    }
                    i = i + 1;
                }
                if list.as_str().unicode_len() > 0 {
                    replies.push(NumericReply::RPL_WHOISCHANNELS.into_prefixed_message(nick_me.as_str(), server_name.as_str(), &one_arg(nick.clone()), Some(list)));
                }
            },
        }
        let ghost before_end = replies@;
        assert(replies@.len() > 0 ==> before_end[0] == replies@[0]);
        replies.push(NumericReply::RPL_ENDOFWHOIS.into_prefixed_message(nick_me.as_str(), server_name.as_str(), &one_arg(target), Some("End of WHOIS list.".to_owned())));
        srv.send_all(id, &replies);
        proof {
            let ms = replies@.map_values(|m: IRCMessage| m@);
            assert(ms.last() == replies@[replies@.len() - 1]@);
            assert(ms[0] == replies@[0]@);
        }
        (true, RecyclingAction::Nothing)
    }
}

/// WHO: one `RPL_WHOREPLY` for each user whose folded nickname matches the mask (all
/// users without one), leaving out invisible (`+i`) users who share no channel with the
/// asker, then `RPL_ENDOFWHO`.
pub struct CmdWho;

/// Whether user `u` shows in WHO for user `asker`: not invisible (`+i`), the asker
/// itself, or sharing a channel with the asker.
pub open spec fn who_visible(srv: ServerData, asker: u128, u: UserData) -> bool {
    !crate::modes::Modes::has(u.modes@, 'i') || u.id == asker || crate::server::share_channel(
        srv.channels.chans@,
        asker,
        u.id,
    )
}

/// Whether user `u` is listed by WHO with mask `mask` for user `asker`.
pub open spec fn who_listed(srv: ServerData, asker: u128, mask: Seq<char>, u: UserData) -> bool {
    crate::util::mask_match(fold(u.nickname@), fold(mask)) && who_visible(srv, asker, u)
}

/// An identifier is selected exactly when some user with it satisfies the predicate.
pub proof fn lemma_ids_where(us: Seq<UserData>, p: spec_fn(UserData) -> bool, x: u128)
    ensures
        crate::users::ids_where(us, p).contains(x) <==> exists|i: int| 0 <= i < us.len() && (#[trigger] us[i]).id == x && p(us[i]),
    decreases us.len(),
{
    if us.len() > 0 {
        lemma_ids_where(us.drop_last(), p, x);
        let init = us.drop_last();
        let r0 = crate::users::ids_where(init, p);
        if exists|i: int| 0 <= i < init.len() && (#[trigger] init[i]).id == x && p(init[i]) {
            let i = choose|i: int| 0 <= i < init.len() && (#[trigger] init[i]).id == x && p(init[i]);
            assert(us[i] == init[i]);
        }
        if exists|i: int| 0 <= i < us.len() && (#[trigger] us[i]).id == x && p(us[i]) {
            let i = choose|i: int| 0 <= i < us.len() && (#[trigger] us[i]).id == x && p(us[i]);
            if i < init.len() {
                assert(init[i] == us[i]);
            }
        }
        if p(us.last()) {
            let r1 = r0.push(us.last().id);
            if r1.contains(x) {
                let t = choose|t: int| 0 <= t < r1.len() && r1[t] == x;
                if t < r0.len() {
                    assert(r0[t] == x);
                }
            }
            if r0.contains(x) {
                let t = choose|t: int| 0 <= t < r0.len() && r0[t] == x;
                assert(r1[t] == x);
            }
            if us.last().id == x {
                assert(r1[r0.len() as int] == x);
            }
        }
    }
}

impl CmdWho {
    pub fn handle_command(&self, srv: &mut ServerData, id: u128, cmd: &IRCMessage) -> (r: (bool, RecyclingAction))
        requires
            old(srv).inv(),
            old(srv).users.has_id(id),
        ensures
            who_done(*old(srv), *final(srv), id, *cmd, r),
    {
        if !is_command(cmd, "WHO") {
            return (false, RecyclingAction::Nothing);
        }
        proof {
            reveal_strlit("*");
        }
        let mask = if cmd.args.len() > 0 {
            cmd.args[0].clone()
        } else {
            "*".to_owned()
        };
        let ghost maskv = if cmd@.args.len() > 0 { cmd@.args[0] } else { seq!['*'] };
        assert(mask@ =~= maskv);
        let ghost us = srv.users.users@;
        let nick_me = srv.nick_of(id);
        let server_name = srv.settings.name.clone();
        let folded = crate::util::label_to_lower(mask.as_str());
        let ids = srv.users.uuids_matching_mask_nick(folded.as_str());
        let ghost pred = |u: UserData| crate::util::mask_match(fold(u.nickname@), folded@);
        assert(ids@ == crate::users::ids_where(us, pred));
        let known = srv.known_by_uuid(id);
        let mut replies: Vec<IRCMessage> = Vec::new();
        let mut k: usize = 0;
        while k < ids.len()
            invariant
                srv.inv(),
                *srv == *old(srv),
                us == srv.users.users@,
                k <= ids@.len(),
                forall|u: UserData| #[trigger] pred(u) == crate::util::mask_match(fold(u.nickname@), fold(maskv)),
                folded@ == fold(maskv),
                ids@ == crate::users::ids_where(us, pred),
                forall|x: u128| known@.contains(x) <==> crate::server::share_channel(srv.channels.chans@, id, x),
                forall|j: int| 0 <= j < replies@.len() ==> (#[trigger] replies@[j])@.command == crate::numericreply::three_digits(352),
                forall|j: int| #![trigger replies@[j]] 0 <= j < replies@.len() ==> exists|q: int| 0 <= q < us.len()
                    && who_listed(*old(srv), id, maskv, #[trigger] us[q]) && (replies@[j])@.args.len() == 7
                    && (replies@[j])@.args[5] == us[q].nickname@,
                forall|q: int| 0 <= q < us.len() && who_listed(*old(srv), id, maskv, #[trigger] us[q]) && ids@.take(k as int).contains(us[q].id)
                    ==> exists|j: int| 0 <= j < replies@.len() && (replies@[j])@.args.len() == 7 && #[trigger] (replies@[j])@.args[5] == us[q].nickname@,
            decreases ids.len() - k,
        {
            let t = ids[k];
            let ghost r0 = replies@;
            proof {
                assert(ids@.take(k as int + 1) =~= ids@.take(k as int).push(t));
                lemma_ids_where(us, pred, t);
                assert(ids@.contains(t));
            }
            match srv.users.index_of_uuid(t) {
                Some(q) => {
                    let u = &srv.users.users[q];
                    let invisible = u.modes.get('i');
                    let mut shares = t == id;
                    let mut j: usize = 0;
                    while j < known.len()
                        invariant
                            j <= known@.len(),
                            shares == (t == id || exists|z: int| 0 <= z < j && known@[z] == t),
                        decreases known.len() - j,
                    {
                        if known[j] == t {
                            shares = true;
                        }
                        j = j + 1;
                    }
                    proof {
                        assert(shares == (t == id || known@.contains(t)));
                        assert(shares == (u.id == id || crate::server::share_channel(old(srv).channels.chans@, id, u.id)));
                        let p = choose|p: int| 0 <= p < us.len() && (#[trigger] us[p]).id == t && pred(us[p]);
                        if p != q as int {
                            assert(us[p].id != us[q as int].id);
                        }
                        assert(pred(us[q as int]));
                    }
                    if !invisible || shares {
                        let mut a: Vec<String> = Vec::new();
                        a.push("*".to_owned());
                        a.push(u.username.clone());
                        a.push(u.hostname.clone());
                        a.push(server_name.clone());
                        a.push(u.nickname.clone());
                        a.push("H".to_owned());
                        let mut text = "0 ".to_owned();
                        text.append(u.realname.as_str());
                        let ghost av = strings_view(a@);
                        let msg = NumericReply::RPL_WHOREPLY.into_prefixed_message(nick_me.as_str(), server_name.as_str(), &a, Some(text));
                        assert(msg@.args =~= seq![nick_me@] + av);
                        assert(msg@.args[5] == us[q as int].nickname@);
                        assert(who_listed(*old(srv), id, maskv, us[q as int]));
                        replies.push(msg);
                        proof {
                            assert forall|j: int| #![trigger replies@[j]] 0 <= j < replies@.len() implies exists|q2: int| 0 <= q2 < us.len()
                                && who_listed(*old(srv), id, maskv, #[trigger] us[q2]) && (replies@[j])@.args.len() == 7
                                && (replies@[j])@.args[5] == us[q2].nickname@ by {
                                if j < r0.len() {
                                    assert(replies@[j] == r0[j]);
                                }
                            }
                            assert forall|j: int| 0 <= j < replies@.len() implies (#[trigger] replies@[j])@.command == crate::numericreply::three_digits(352) by {
                                if j < r0.len() {
                                    assert(replies@[j] == r0[j]);
                                }
                            }
                        }
                    }
                    proof {
                        assert forall|q2: int| 0 <= q2 < us.len() && who_listed(*old(srv), id, maskv, #[trigger] us[q2]) && ids@.take(k as int + 1).contains(us[q2].id)
                            implies exists|j: int| 0 <= j < replies@.len() && (replies@[j])@.args.len() == 7 && #[trigger] (replies@[j])@.args[5] == us[q2].nickname@ by {
                            if ids@.take(k as int).contains(us[q2].id) {
                                let j = choose|j: int| 0 <= j < r0.len() && (r0[j])@.args.len() == 7 && #[trigger] (r0[j])@.args[5] == us[q2].nickname@;
                                assert(replies@[j] == r0[j]);
                            } else {
                                assert(us[q2].id == t);
                                if q2 != q as int {
                                    assert(us[q2].id != us[q as int].id);
                                }
                                assert(replies@[r0.len() as int]@.args[5] == us[q2].nickname@);
                            }
                        }
                    }
                },
                None => {
                    proof {
                        assert(srv.users.has_id(t)) by {
                            let p = choose|p: int| 0 <= p < us.len() && (#[trigger] us[p]).id == t && pred(us[p]);
                        }
                    }
                },
            }
            k = k + 1;
        }
        assert(ids@.take(ids@.len() as int) =~= ids@);
        let ghost r0 = replies@;
        replies.push(NumericReply::RPL_ENDOFWHO.into_prefixed_message(nick_me.as_str(), server_name.as_str(), &one_arg(mask), Some("End of WHO list.".to_owned())));
        srv.send_all(id, &replies);
        proof {
            let ms = replies@.map_values(|m: IRCMessage| m@);
            assert(ms.last() == replies@[replies@.len() - 1]@);
            assert forall|j: int| 0 <= j < ms.len() - 1 implies (#[trigger] ms[j]).command == crate::numericreply::three_digits(352) by {
                assert(ms[j] == r0[j]@);
            }
            assert forall|j: int| #![trigger ms[j]] 0 <= j < ms.len() - 1 implies exists|q: int| 0 <= q < us.len()
                && who_listed(*old(srv), id, maskv, #[trigger] us[q]) && ms[j].args.len() == 7 && ms[j].args[5] == us[q].nickname@ by {
                assert(ms[j] == r0[j]@);
            }
            assert forall|q: int| 0 <= q < us.len() && who_listed(*old(srv), id, maskv, #[trigger] us[q]) implies exists|j: int|
                0 <= j < ms.len() - 1 && ms[j].args.len() == 7 && #[trigger] ms[j].args[5] == us[q].nickname@ by {
                lemma_ids_where(us, pred, us[q].id);
                let j = choose|j: int| 0 <= j < r0.len() && (r0[j])@.args.len() == 7 && #[trigger] (r0[j])@.args[5] == us[q].nickname@;
                assert(ms[j] == r0[j]@);
            }
        }
        (true, RecyclingAction::Nothing)
    }
}

/// What `CmdPing::handle_command` does when user `id` sends `cmd` in state `a`, leaving
/// state `b` and returning `r`.
pub open spec fn ping_done(a: ServerData, b: ServerData, id: u128, cmd: IRCMessage, r: (bool, RecyclingAction)) -> bool {
    &&& b.inv()
    &&& b.channels == a.channels
    &&& forall|x: u128| #[trigger] b.users.has_id(x) == a.users.has_id(x)
    &&& r.0 == (upper(cmd.command@) == "PING"@)
    &&& r.1 == RecyclingAction::Nothing
    &&& !r.0 ==> b == a
    &&& r.0 && cmd.args@.len() > 0 ==> queues_pushed(
                    a.users.users@,
                    b.users.users@,
                    set![id],
                    MsgView {
                        prefix: None,
                        command: "PONG"@,
                        args: seq![a.settings.name@, cmd.args@[0]@],
                        suffix: None,
                    },
                )
}

/// What `CmdPrivmsgOrNotice::handle_command` does when user `id` sends `cmd` in state `a`, leaving
/// state `b` and returning `r`.
pub open spec fn privmsg_done(a: ServerData, b: ServerData, id: u128, cmd: IRCMessage, r: (bool, RecyclingAction)) -> bool {
    &&& b.inv()
    &&& r.0 == (upper(cmd.command@) == "PRIVMSG"@ || upper(cmd.command@) == "NOTICE"@)
    &&& r.1 == RecyclingAction::Nothing
    &&& !r.0 ==> b == a
    &&& b.channels == a.channels
    &&& ({
                    let m = cmd@;
                    let available = m.args.len() + if m.suffix is Some { 1int } else { 0int };
                    let code: int = if m.args.len() == 0 { 411 } else if available == 1 { 412 } else { 401 };
                    r.0 && (m.args.len() == 0 || available < 2 || (a.users.by_nick(fold(m.args[0])) is None
                        && !a.channels.has_key(fold(m.args[0])))) ==> exists|mv: MsgView|
                        queues_pushed(a.users.users@, b.users.users@, set![id], mv)
                            && mv.command == crate::numericreply::three_digits(code)
                })
    &&& ({
                    let m = cmd@;
                    let available = m.args.len() + if m.suffix is Some { 1int } else { 0int };
                    let t = a.users.by_nick(fold(m.args[0]));
                    r.0 && m.args.len() > 0 && available >= 2 && t is Some && t->0.id != id ==> (exists|mv: MsgView|
                        queue_view(b.user(t->0.id).queue@) == queue_view(a.user(t->0.id).queue@).push(mv)
                            && mv.suffix == Some(crate::messages::fuse(m.args.skip(1), m.suffix))
                            && mv.command == (if upper(m.command) == "NOTICE"@ { "NOTICE"@ } else { "PRIVMSG"@ })
                            && mv.args == seq![m.args[0]]
                            && mv.prefix == Some(a.user(id).fullname()))
                        && ((upper(m.command) == "NOTICE"@ || a.user(t->0.id).away is None)
                            ==> queue_view(b.user(id).queue@) == queue_view(a.user(id).queue@))
                })
    &&& ({
                    let m = cmd@;
                    let chans = a.channels.chans@;
                    let available = m.args.len() + if m.suffix is Some { 1int } else { 0int };
                    r.0 && m.args.len() > 0 && available >= 2 && a.users.by_nick(fold(m.args[0])) is None
                        ==> forall|i: int|
                        0 <= i < chans.len() && (#[trigger] chans[i]).key() == fold(m.args[0]) ==> if send_refused(
                            chans[i],
                            id,
                            is_oper(a.user(id)),
                        ) {
                            exists|mv: MsgView|
                                queues_pushed(a.users.users@, b.users.users@, set![id], mv)
                                    && mv.command == crate::numericreply::three_digits(404)
                                    && mv.args == seq![a.user(id).nickname@, m.args[0]]
                        } else {
                            exists|mv: MsgView|
                                queues_pushed(
                                    a.users.users@,
                                    b.users.users@,
                                    Set::new(|x: u128| chans[i].has(x) && x != id),
                                    mv,
                                ) && mv.suffix == Some(crate::messages::fuse(m.args.skip(1), m.suffix))
                        }
                })
}

/// What `CmdJoin::handle_command` does when user `id` sends `cmd` in state `a`, leaving
/// state `b` and returning `r`.
pub open spec fn join_done(a: ServerData, b: ServerData, id: u128, cmd: IRCMessage, r: (bool, RecyclingAction)) -> bool {
    &&& b.inv()
    &&& r.0 == (upper(cmd.command@) == "JOIN"@)
    &&& r.1 == RecyclingAction::Nothing
    &&& !r.0 ==> b == a
    &&& r.0 && cmd.args@.len() > 0 ==> forall|j: int|
                    0 <= j < pieces(cmd.args@[0]@, ',').len() && is_channame(
                        #[trigger] pieces(cmd.args@[0]@, ',')[j],
                    ) ==> b.channels.is_member(fold(pieces(cmd.args@[0]@, ',')[j]), id)
    &&& ({
                    let ps = pieces(cmd.args@[0]@, ',');
                    r.0 && cmd.args@.len() > 0 && ps.len() == 1 && is_channame(ps[0]) ==> {
                        &&& !a.channels.has_key(fold(ps[0])) ==> crate::channels::joined_fresh(
                            a.channels.chans@,
                            b.channels.chans@,
                            id,
                            ps[0],
                        )
                        &&& a.channels.is_member(fold(ps[0]), id) ==> b.channels.chans@
                            == a.channels.chans@
                        &&& exists|ms: Seq<MsgView>| #![trigger queue_view(a.user(id).queue@) + ms]
                            queue_view(b.user(id).queue@) == queue_view(a.user(id).queue@) + ms
                            && ms.len() >= 3 && ms[0].command == "JOIN"@ && ms[0].args == seq![ps[0]]
                            && ms[0].prefix == Some(a.user(id).fullname())
                            && (ms[1].command == crate::numericreply::three_digits(331) || ms[1].command == crate::numericreply::three_digits(332))
                    &&& forall|x: u128| x != id && a.users.has_id(x) ==> #[trigger] queue_view(b.user(x).queue@)
                        == if b.channels.is_member(fold(ps[0]), x) {
                        queue_view(a.user(x).queue@).push(join_view(a.user(id).fullname(), ps[0]))
                    } else {
                        queue_view(a.user(x).queue@)
                    }
                    }
                })
    &&& ({
                    let ps = pieces(cmd.args@[0]@, ',');
                    r.0 && cmd.args@.len() > 0 && ps.len() == 1 && !is_channame(ps[0]) ==> b.channels == a.channels
                        && exists|m: MsgView| queues_pushed(a.users.users@, b.users.users@, set![id], m)
                            && m.command == crate::numericreply::three_digits(476) && m.args == seq![a.user(id).nickname@, ps[0]]
                })
}

/// What `CmdPart::handle_command` does when user `id` sends `cmd` in state `a`, leaving
/// state `b` and returning `r`.
pub open spec fn part_done(a: ServerData, b: ServerData, id: u128, cmd: IRCMessage, r: (bool, RecyclingAction)) -> bool {
    &&& b.inv()
    &&& r.0 == (upper(cmd.command@) == "PART"@)
    &&& r.1 == RecyclingAction::Nothing
    &&& !r.0 ==> b == a
    &&& r.0 && cmd.args@.len() > 0 ==> forall|j: int|
                    0 <= j < pieces(cmd.args@[0]@, ',').len() ==> !b.channels.is_member(
                        fold(#[trigger] pieces(cmd.args@[0]@, ',')[j]),
                        id,
                    )
    &&& ({
                    let ps = pieces(cmd.args@[0]@, ',');
                    r.0 && cmd.args@.len() > 0 && ps.len() == 1 ==> {
                        &&& a.channels.is_member(fold(ps[0]), id) ==> forall|q: int| 0 <= q < a.channels.chans@.len()
                            && (#[trigger] a.channels.chans@[q]).key() == fold(ps[0]) ==> queues_pushed(
                            a.users.users@,
                            b.users.users@,
                            Set::new(|x: u128| a.channels.chans@[q].has(x)),
                            part_view(a.user(id).fullname(), ps[0], part_reason(cmd@)),
                        )
                        &&& a.channels.is_member(fold(ps[0]), id) ==> exists|mid: Seq<Channel>, gone: bool|
                            parted(a.channels.chans@, mid, id, fold(ps[0])) && destroyed(mid, b.channels.chans@, fold(ps[0]), gone)
                        &&& a.channels.is_member(fold(ps[0]), id) && (forall|q: int| 0 <= q < a.channels.chans@.len()
                            && (#[trigger] a.channels.chans@[q]).key() == fold(ps[0]) ==> a.channels.chans@[q].members@.len() == 1)
                            ==> !b.channels.has_key(fold(ps[0]))
                        &&& a.channels.has_key(fold(ps[0])) && !a.channels.is_member(fold(ps[0]), id) ==>
                            b.channels == a.channels && exists|m: MsgView|
                            queues_pushed(a.users.users@, b.users.users@, set![id], m)
                                && m.command == crate::numericreply::three_digits(442) && m.args == seq![a.user(id).nickname@, ps[0]]
                        &&& !a.channels.has_key(fold(ps[0])) ==> b.channels == a.channels && exists|m: MsgView|
                            queues_pushed(a.users.users@, b.users.users@, set![id], m)
                                && m.command == crate::numericreply::three_digits(403) && m.args == seq![a.user(id).nickname@, ps[0]]
                    }
                })
}

/// What `CmdNames::handle_command` does when user `id` sends `cmd` in state `a`, leaving
/// state `b` and returning `r`.
pub open spec fn names_done(a: ServerData, b: ServerData, id: u128, cmd: IRCMessage, r: (bool, RecyclingAction)) -> bool {
    &&& b.inv()
    &&& b.channels == a.channels
    &&& forall|x: u128| #[trigger] b.users.has_id(x) == a.users.has_id(x)
    &&& r.0 == (upper(cmd.command@) == "NAMES"@)
    &&& r.1 == RecyclingAction::Nothing
    &&& !r.0 ==> b == a
    &&& r.0 && cmd@.args.len() == 1 && pieces(cmd@.args[0], ',').len() == 1 ==> forall|q: int|
                    0 <= q < a.channels.chans@.len() && (#[trigger] a.channels.chans@[q]).key() == fold(pieces(cmd@.args[0], ',')[0])
                        && !visible_to(a.channels.chans@[q], id) ==> exists|m: MsgView|
                        queues_pushed(a.users.users@, b.users.users@, set![id], m)
                            && m.command == crate::numericreply::three_digits(366)
    &&& r.0 && cmd@.args.len() == 1 && pieces(cmd@.args[0], ',').len() == 1 ==> forall|q: int|
                    0 <= q < a.channels.chans@.len() && (#[trigger] a.channels.chans@[q]).key() == fold(pieces(cmd@.args[0], ',')[0])
                        && visible_to(a.channels.chans@[q], id) ==> names_sent(a, a.users.users@,
                        b.users.users@, id, a.channels.chans@[q])
}

/// What `CmdList::handle_command` does when user `id` sends `cmd` in state `a`, leaving
/// state `b` and returning `r`.
pub open spec fn list_done(a: ServerData, b: ServerData, id: u128, cmd: IRCMessage, r: (bool, RecyclingAction)) -> bool {
    &&& b.inv()
    &&& b.channels == a.channels
    &&& forall|x: u128| #[trigger] b.users.has_id(x) == a.users.has_id(x)
    &&& r.0 == (upper(cmd.command@) == "LIST"@)
    &&& r.1 == RecyclingAction::Nothing
    &&& !r.0 ==> b == a
    &&& r.0 && cmd@.args.len() == 0 ==> exists|ms: Seq<MsgView>| {
                    &&& queues_appended(a.users.users@, b.users.users@, id, ms)
                    &&& ms.len() > 0
                    &&& ms.last().command == crate::numericreply::three_digits(323)
                    &&& forall|j: int| 0 <= j < ms.len() - 1 ==> (#[trigger] ms[j]).command == crate::numericreply::three_digits(322)
                    &&& forall|j: int| 0 <= j < ms.len() - 1 ==> names_visible(a.channels.chans@, (#[trigger] ms[j]).args[1], id)
                    &&& forall|q: int| 0 <= q < a.channels.chans@.len() && visible_to(#[trigger] a.channels.chans@[q], id)
                        ==> listed(ms, a.channels.chans@[q])
                    &&& forall|j1: int, j2: int| 0 <= j1 < j2 < ms.len() - 1 ==> (#[trigger] ms[j1]).args[1]
                        != (#[trigger] ms[j2]).args[1]
                }
    &&& r.0 ==> exists|ms: Seq<MsgView>| {
                    &&& queues_appended(a.users.users@, b.users.users@, id, ms)
                    &&& ms.len() > 0
                    &&& ms.last().command == crate::numericreply::three_digits(323)
                    &&& forall|j: int| 0 <= j < ms.len() - 1 ==> (#[trigger] ms[j]).command == crate::numericreply::three_digits(322)
                    &&& forall|j: int| 0 <= j < ms.len() - 1 ==> names_visible(a.channels.chans@, (#[trigger] ms[j]).args[1], id)
                }
}

/// What `CmdMode::handle_command` does when user `id` sends `cmd` in state `a`, leaving
/// state `b` and returning `r`.
pub open spec fn mode_done(a: ServerData, b: ServerData, id: u128, cmd: IRCMessage, r: (bool, RecyclingAction)) -> bool {
    &&& b.inv()
    &&& forall|x: u128| #[trigger] b.users.has_id(x) == a.users.has_id(x)
    &&& r.0 == (upper(cmd.command@) == "MODE"@)
    &&& r.1 == RecyclingAction::Nothing
    &&& !r.0 ==> b == a
    &&& same_members(a.channels.chans@, b.channels.chans@)
    &&& is_oper(b.user(id)) ==> is_oper(a.user(id))
    &&& ({
                    let m = cmd@;
                    let chans = a.channels.chans@;
                    r.0 && m.args.len() > 0 && a.users.by_nick(fold(m.args[0])) is None ==> forall|q: int|
                        0 <= q < chans.len() && (#[trigger] chans[q]).key() == fold(m.args[0])
                            && !(chans[q].has(id) && (is_oper(a.user(id)) || (chans[q].mode_of(id) matches Some(mm) && mm.op)))
                            ==> b.channels == a.channels
                })
    &&& ({
                    let m = cmd@;
                    let t = a.users.by_nick(fold(m.args[0]));
                    let chans = a.channels.chans@;
                    &&& r.0 && m.args.len() > 1 && t is Some && t->0.id == id ==> b.user(id).modes@
                        == user_scan(a.user(id).modes@, m.args, 1)
                    &&& r.0 && m.args.len() == 1 && t is Some && t->0.id == id ==> exists|mv: MsgView|
                        queues_pushed(a.users.users@, b.users.users@, set![id], mv)
                            && mv.command == crate::numericreply::three_digits(221)
                            && mv.suffix == Some(crate::modes::render(a.user(id).modes@))
                    &&& r.0 && m.args.len() > 1 && t is None ==> forall|q: int|
                        0 <= q < chans.len() && (#[trigger] chans[q]).key() == fold(m.args[0])
                            && chans[q].has(id) && (is_oper(a.user(id)) || (chans[q].mode_of(id) matches Some(mm) && mm.op))
                            ==> b.channels.chans@[q].modes@ == chan_scan(chans[q].modes@, m.args, 1)
                    &&& r.0 && m.args.len() == 1 && t is None ==> forall|q: int|
                        0 <= q < chans.len() && (#[trigger] chans[q]).key() == fold(m.args[0]) && chans[q].has(id)
                            ==> exists|ms: Seq<MsgView>| queues_appended(a.users.users@, b.users.users@, id, ms)
                            && ms.len() == 2 && ms[0].command == crate::numericreply::three_digits(324)
                            && ms[0].args.len() == 3 && ms[0].args[2] == crate::modes::render(chans[q].modes@)
                            && ms[1].command == crate::numericreply::three_digits(329)
                    &&& r.0 && m.args.len() > 1 && t is None ==> forall|q: int|
                        0 <= q < chans.len() && (#[trigger] chans[q]).key() == fold(m.args[0]) && chans[q].has(id)
                            && !(is_oper(a.user(id)) || (chans[q].mode_of(id) matches Some(mm) && mm.op))
                            ==> b.channels == a.channels && exists|mv: MsgView| queues_pushed(a.users.users@, b.users.users@, set![id], mv)
                            && mv.command == crate::numericreply::three_digits(482)
                            && mv.args == seq![a.user(id).nickname@, m.args[0]]
                })
}

/// What `ModAway::handle_command` does when user `id` sends `cmd` in state `a`, leaving
/// state `b` and returning `r`.
pub open spec fn away_done(a: ServerData, b: ServerData, id: u128, cmd: IRCMessage, r: (bool, RecyclingAction)) -> bool {
    &&& b.inv()
    &&& b.channels == a.channels
    &&& forall|x: u128| #[trigger] b.users.has_id(x) == a.users.has_id(x)
    &&& r.0 == (upper(cmd.command@) == "AWAY"@)
    &&& r.1 == RecyclingAction::Nothing
    &&& !r.0 ==> b == a
    &&& r.0 ==> (b.user(id).away is Some <==> cmd@.args.len() > 0 || cmd@.suffix is Some)
    &&& r.0 && (cmd@.args.len() > 0 || cmd@.suffix is Some) ==> crate::messages::opt_view(b.user(id).away)
                    == Some(crate::messages::fuse(cmd@.args, cmd@.suffix))
    &&& r.0 ==> crate::modes::Modes::has(b.user(id).modes@, 'a') == (cmd@.args.len() > 0 || cmd@.suffix is Some)
}

/// What `CmdTopic::handle_command` does when user `id` sends `cmd` in state `a`, leaving
/// state `b` and returning `r`.
pub open spec fn topic_done(a: ServerData, b: ServerData, id: u128, cmd: IRCMessage, r: (bool, RecyclingAction)) -> bool {
    &&& b.inv()
    &&& forall|x: u128| #[trigger] b.users.has_id(x) == a.users.has_id(x)
    &&& r.0 == (upper(cmd.command@) == "TOPIC"@)
    &&& r.1 == RecyclingAction::Nothing
    &&& !r.0 ==> b == a
    &&& same_members(a.channels.chans@, b.channels.chans@)
    &&& ({
                    let m = cmd@;
                    let chans = a.channels.chans@;
                    let available = m.args.len() + if m.suffix is Some { 1int } else { 0int };
                    r.0 && m.args.len() > 0 && available >= 2 ==> forall|q: int|
                        0 <= q < chans.len() && (#[trigger] chans[q]).key() == fold(m.args[0]) ==>
                            b.channels.chans@[q].topic@ == if may_set_topic(chans[q], id, is_oper(a.user(id))) {
                                crate::messages::fuse(m.args.skip(1), m.suffix)
                            } else {
                                chans[q].topic@
                            }
                })
    &&& r.0 && (cmd@.args.len() == 0 || cmd@.args.len() + (if cmd@.suffix is Some { 1int } else { 0int }) < 2) ==> b.channels == a.channels
    &&& ({
                    let m = cmd@;
                    let chans = a.channels.chans@;
                    r.0 && m.args.len() == 1 && m.suffix is None ==> forall|q: int|
                        0 <= q < chans.len() && (#[trigger] chans[q]).key() == fold(m.args[0]) ==> exists|mv: MsgView|
                        queues_pushed(a.users.users@, b.users.users@, set![id], mv)
                            && mv.command == crate::numericreply::three_digits(
                            if !visible_to(chans[q], id) { 442 } else if chans[q].topic@.len() == 0 { 331 } else { 332 },
                        )
                            && (visible_to(chans[q], id) && chans[q].topic@.len() > 0 ==> mv.suffix == Some(chans[q].topic@))
                })
}

/// What `CmdOper::handle_command` does when user `id` sends `cmd` in state `a`, leaving
/// state `b` and returning `r`.
pub open spec fn oper_done(a: ServerData, b: ServerData, id: u128, cmd: IRCMessage, r: (bool, RecyclingAction)) -> bool {
    &&& b.inv()
    &&& b.channels == a.channels
    &&& forall|x: u128| #[trigger] b.users.has_id(x) == a.users.has_id(x)
    &&& r.0 == (upper(cmd.command@) == "OPER"@)
    &&& r.1 == RecyclingAction::Nothing
    &&& !r.0 ==> b == a
    &&& r.0 && cmd@.args.len() >= 2 ==> (is_oper(b.user(id)) == (is_oper(a.user(id))
                    || creds_match(a.opers@, cmd@.args[0], cmd@.args[1])))
    &&& r.0 && cmd@.args.len() >= 2 ==> exists|m: MsgView|
                    queue_view(b.user(id).queue@) == queue_view(a.user(id).queue@).push(m)
                        && m.command == crate::numericreply::three_digits(
                        if creds_match(a.opers@, cmd@.args[0], cmd@.args[1]) { 381 } else { 464 },
                    )
    &&& r.0 && cmd@.args.len() >= 2 && !creds_match(a.opers@, cmd@.args[0], cmd@.args[1])
                    ==> b.user(id).modes == a.user(id).modes
}

/// What `CmdNick::handle_command` does when user `id` sends `cmd` in state `a`, leaving
/// state `b` and returning `r`.
pub open spec fn nick_done(a: ServerData, b: ServerData, id: u128, cmd: IRCMessage, r: (bool, RecyclingAction)) -> bool {
    &&& b.inv()
    &&& b.channels == a.channels
    &&& r.0 == (upper(cmd.command@) == "NICK"@)
    &&& !r.0 ==> b == a && r.1 == RecyclingAction::Nothing
    &&& r.1 != RecyclingAction::Zombify
    &&& ({
                    let given: Option<Seq<char>> = if cmd@.args.len() > 0 { Some(cmd@.args[0]) } else { cmd@.suffix };
                    let n = given->0;
                    &&& r.0 && given is Some && is_label(n) && n != a.user(id).nickname@ ==> (r.1 is ChangeNick
                        && r.1->ChangeNick_0@ == n) && b.users == a.users
                    &&& r.0 && given is Some && is_label(n) && n == a.user(id).nickname@ ==> r.1 == RecyclingAction::Nothing
                        && b.users == a.users
                    &&& r.0 && given is Some && !is_label(n) ==> r.1 == RecyclingAction::Nothing && exists|m: MsgView|
                        queues_pushed(a.users.users@, b.users.users@, set![id], m)
                            && m.command == crate::numericreply::three_digits(432) && m.args == seq![a.user(id).nickname@, n]
                    &&& r.0 && given is None ==> r.1 == RecyclingAction::Nothing && exists|m: MsgView|
                        queues_pushed(a.users.users@, b.users.users@, set![id], m)
                            && m.command == crate::numericreply::three_digits(431)
                })
}

/// What `CmdQuit::handle_command` does when user `id` sends `cmd` in state `a`, leaving
/// state `b` and returning `r`.
pub open spec fn quit_done(a: ServerData, b: ServerData, id: u128, cmd: IRCMessage, r: (bool, RecyclingAction)) -> bool {
    &&& b.inv()
    &&& b.channels == a.channels
    &&& forall|x: u128| #[trigger] b.users.has_id(x) == a.users.has_id(x)
    &&& r.0 == (upper(cmd.command@) == "QUIT"@)
    &&& !r.0 ==> b == a && r.1 == RecyclingAction::Nothing
    &&& r.0 ==> r.1 == RecyclingAction::Zombify && exists|m: MsgView|
                    queues_pushed(
                        a.users.users@,
                        b.users.users@,
                        Set::new(|x: u128| crate::server::share_channel(a.channels.chans@, id, x) && x != id),
                        m,
                    ) && m.command == "QUIT"@ && m.prefix == Some(a.user(id).fullname())
                        && m.args.len() == 0
                        && m.suffix == (if cmd@.args.len() + (if cmd@.suffix is Some { 1int } else { 0int }) > 0 {
                        Some(crate::messages::fuse(cmd@.args, cmd@.suffix))
                    } else {
                        None
                    })
}

/// What `CmdTime::handle_command` does when user `id` sends `cmd` in state `a`, leaving
/// state `b` and returning `r`.
pub open spec fn time_done(a: ServerData, b: ServerData, id: u128, cmd: IRCMessage, r: (bool, RecyclingAction)) -> bool {
    &&& b.inv()
    &&& b.channels == a.channels
    &&& forall|x: u128| #[trigger] b.users.has_id(x) == a.users.has_id(x)
    &&& r.0 == (upper(cmd.command@) == "TIME"@)
    &&& r.1 == RecyclingAction::Nothing
    &&& !r.0 ==> b == a
    &&& r.0 ==> exists|m: MsgView| queues_pushed(a.users.users@, b.users.users@, set![id], m)
                    && m.command == crate::numericreply::three_digits(391)
                    && m.args == seq![a.user(id).nickname@, a.settings.name@]
}

/// What `CmdDie::handle_command` does when user `id` sends `cmd` in state `a`, leaving
/// state `b` and returning `r`.
pub open spec fn die_done(a: ServerData, b: ServerData, id: u128, cmd: IRCMessage, r: (bool, RecyclingAction)) -> bool {
    &&& b.inv()
    &&& b.channels == a.channels
    &&& forall|x: u128| #[trigger] b.users.has_id(x) == a.users.has_id(x)
    &&& r.0 == (upper(cmd.command@) == "DIE"@)
    &&& r.1 == RecyclingAction::Nothing
    &&& !r.0 ==> b == a
    &&& r.0 ==> b.signal_shutdown == (a.signal_shutdown || is_oper(a.user(id)))
    &&& r.0 && !is_oper(a.user(id)) ==> exists|m: MsgView| queues_pushed(a.users.users@, b.users.users@, set![id], m)
                    && m.command == crate::numericreply::three_digits(481)
}

/// What `CmdUser::handle_command` does when user `id` sends `cmd` in state `a`, leaving
/// state `b` and returning `r`.
pub open spec fn user_done(a: ServerData, b: ServerData, id: u128, cmd: IRCMessage, r: (bool, RecyclingAction)) -> bool {
    &&& b.inv()
    &&& b.channels == a.channels
    &&& forall|x: u128| #[trigger] b.users.has_id(x) == a.users.has_id(x)
    &&& r.0 == (upper(cmd.command@) == "USER"@)
    &&& r.1 == RecyclingAction::Nothing
    &&& !r.0 ==> b == a
    &&& r.0 ==> exists|m: MsgView| queues_pushed(a.users.users@, b.users.users@, set![id], m)
                    && m.command == crate::numericreply::three_digits(462)
}

/// What `CmdWho::handle_command` does when user `id` sends `cmd` in state `a`, leaving
/// state `b` and returning `r`.
pub open spec fn who_done(a: ServerData, b: ServerData, id: u128, cmd: IRCMessage, r: (bool, RecyclingAction)) -> bool {
    &&& b.inv()
    &&& b.channels == a.channels
    &&& forall|x: u128| #[trigger] b.users.has_id(x) == a.users.has_id(x)
    &&& r.0 == (upper(cmd.command@) == "WHO"@)
    &&& r.1 == RecyclingAction::Nothing
    &&& !r.0 ==> b == a
    &&& r.0 ==> exists|ms: Seq<MsgView>| #![trigger queues_appended(a.users.users@, b.users.users@, id, ms)] {
                    let mask = if cmd@.args.len() > 0 { cmd@.args[0] } else { seq!['*'] };
                    let us = a.users.users@;
                    &&& queues_appended(a.users.users@, b.users.users@, id, ms)
                    &&& ms.len() > 0
                    &&& ms.last().command == crate::numericreply::three_digits(315)
                    &&& forall|j: int| 0 <= j < ms.len() - 1 ==> (#[trigger] ms[j]).command == crate::numericreply::three_digits(352)
                    &&& forall|j: int| #![trigger ms[j]] 0 <= j < ms.len() - 1 ==> exists|q: int| 0 <= q < us.len()
                        && who_listed(a, id, mask, #[trigger] us[q]) && ms[j].args.len() == 7 && ms[j].args[5] == us[q].nickname@
                    &&& forall|q: int| 0 <= q < us.len() && who_listed(a, id, mask, #[trigger] us[q]) ==> exists|j: int|
                        0 <= j < ms.len() - 1 && ms[j].args.len() == 7 && #[trigger] ms[j].args[5] == us[q].nickname@
                }
}

/// What `CmdWhois::handle_command` does when user `id` sends `cmd` in state `a`, leaving
/// state `b` and returning `r`.
pub open spec fn whois_done(a: ServerData, b: ServerData, id: u128, cmd: IRCMessage, r: (bool, RecyclingAction)) -> bool {
    &&& b.inv()
    &&& b.channels == a.channels
    &&& forall|x: u128| #[trigger] b.users.has_id(x) == a.users.has_id(x)
    &&& r.0 == (upper(cmd.command@) == "WHOIS"@)
    &&& r.1 == RecyclingAction::Nothing
    &&& !r.0 ==> b == a
    &&& r.0 ==> exists|ms: Seq<MsgView>| {
                    &&& queues_appended(a.users.users@, b.users.users@, id, ms)
                    &&& ms.len() > 0
                    &&& ms.last().command == crate::numericreply::three_digits(if cmd@.args.len() == 0 { 431 } else { 318 })
                    &&& (cmd@.args.len() > 0 && a.users.by_nick(fold(cmd@.args.last())) is None ==> ms.len() == 2
                        && ms[0].command == crate::numericreply::three_digits(401))
                    &&& (cmd@.args.len() > 0 && a.users.by_nick(fold(cmd@.args.last())) is Some ==> {
                        let u = a.users.by_nick(fold(cmd@.args.last()))->0;
                        &&& ms.len() >= 2
                        &&& ms[0].command == crate::numericreply::three_digits(311)
                        &&& ms[0].args == seq![a.user(id).nickname@, u.nickname@, u.username@, u.hostname@, "*"@]
                        &&& ms[0].suffix == Some(u.realname@)
                    })
                }
}

} // verus!
