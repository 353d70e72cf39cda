//! Processes that name what they use by handle: the system-call surface of a
//! guest has no paths and no references, only the numbers of capabilities that
//! its loader has installed.

use crate::actions::{ExecIntent, ReadPlan};
use crate::cap::CapRef;
use crate::policy::{ConsentLedger, LedgerV};
use crate::session;
use crate::session::Session;
use crate::show;
use crate::state;
use crate::state::SessionV;
use crate::text;
use crate::text::dec_string;
use vstd::prelude::*;

verus! {

/// The capabilities of a process by handle; a slot is empty before it is used
/// and after it is closed.
pub struct CList {
    entries: Vec<Option<CapRef>>,
}

impl View for CList {
    type V = Seq<Option<Seq<char>>>;

    closed spec fn view(&self) -> Seq<Option<Seq<char>>> {
        self.entries@.map_values(
            |e: Option<CapRef>|
                match e {
                    Some(c) => Some(c@),
                    None => None,
                },
        )
    }
}

/// The smallest empty slot, or one past the end.
pub open spec fn free_slot(h: Seq<Option<Seq<char>>>) -> int
    decreases h.len(),
{
    if h.len() == 0 || h[0] is None {
        0
    } else {
        1 + free_slot(h.drop_first())
    }
}

/// The handles after a capability was installed: it is in the smallest empty
/// slot.
pub open spec fn installed(h: Seq<Option<Seq<char>>>, c: Seq<char>) -> Seq<Option<Seq<char>>> {
    if free_slot(h) < h.len() {
        h.update(free_slot(h), Some(c))
    } else {
        h.push(Some(c))
    }
}

/// What a handle stands for, or why it stands for nothing.
pub open spec fn resolved(h: Seq<Option<Seq<char>>>, i: usize) -> Result<Seq<char>, Seq<char>> {
    if i < h.len() && h[i as int] is Some {
        Ok(h[i as int]->0)
    } else {
        Err("capvm: 句柄 "@ + text::dec(i as nat) + " 无效(越界/已关闭/伪造)—— 无 ambient authority"@)
    }
}

/// How many handles stand for something.
pub open spec fn live_count(h: Seq<Option<Seq<char>>>) -> nat
    decreases h.len(),
{
    if h.len() == 0 {
        0
    } else {
        live_count(h.drop_last()) + if h.last() is Some {
            1nat
        } else {
            0
        }
    }
}

/// The free slot is within the list or one past it, and it is empty there.
pub proof fn lemma_free_slot(h: Seq<Option<Seq<char>>>)
    ensures
        0 <= free_slot(h) <= h.len(),
        free_slot(h) < h.len() ==> h[free_slot(h)] is None,
        forall|i: int| 0 <= i < free_slot(h) ==> (#[trigger] h[i]) is Some,
    decreases h.len(),
{
    if h.len() > 0 && h[0] is Some {
        lemma_free_slot(h.drop_first());
        assert forall|i: int| 0 <= i < free_slot(h) implies (#[trigger] h[i]) is Some by {
            if i > 0 {
                assert(h.drop_first()[i - 1] == h[i]);
            }
        }
    }
}

impl CList {
    /// No capabilities.
    pub fn new() -> (r: CList)
        ensures
            r@ == Seq::<Option<Seq<char>>>::empty(),
    {
        let r = CList { entries: Vec::new() };
        assert(r@ =~= Seq::<Option<Seq<char>>>::empty());
        r
    }

    /// Puts a capability into the smallest empty slot and gives its handle.
    pub fn install(&mut self, cap: CapRef) -> (h: usize)
        ensures
            h == free_slot(old(self)@),
            final(self)@ == installed(old(self)@, cap@),
    {
        let ghost before = self@;
        let ghost c = cap@;
        let mut i: usize = 0;
        assert(before.skip(0) =~= before);
        while i < self.entries.len() && self.entries[i].is_some()
            invariant
                i <= self.entries@.len(),
                self@ == before,
                before.len() == self.entries@.len(),
                free_slot(before) == i + free_slot(before.skip(i as int)),
            decreases self.entries@.len() - i,
        {
            assert(before[i as int] is Some);
            assert(before.skip(i as int).drop_first() =~= before.skip(i + 1));
            i += 1;
        }
        if i < self.entries.len() {
            assert(before[i as int] is None);
            assert(before.skip(i as int)[0] is None);
            self.entries.set(i, Some(cap));
            assert(self@ =~= before.update(i as int, Some(c)));
        } else {
            self.entries.push(Some(cap));
            assert(self@ =~= before.push(Some(c)));
        }
        i
    }

    /// What a handle stands for.
    pub fn resolve(&self, h: usize) -> (res: Result<CapRef, String>)
        ensures
            text::result_view(res) == resolved(self@, h),
    {
        if h < self.entries.len() {
            match &self.entries[h] {
                Some(c) => {
                    assert(self@[h as int] == Some(c@));
                    return Ok(c.clone());
                },
                None => {
                    assert(self@[h as int] is None);
                },
            }
        }
        Err(
            "capvm: 句柄 ".to_string().concat(dec_string(h as u64).as_str()).concat(
                " 无效(越界/已关闭/伪造)—— 无 ambient authority",
            ),
        )
    }

    /// Empties a slot.
    pub fn close(&mut self, h: usize) -> (res: Result<(), String>)
        ensures
            session::unit_view(res) == closed_result(old(self)@, h),
            final(self)@ == closed(old(self)@, h),
    {
        let ghost before = self@;
        if h < self.entries.len() && self.entries[h].is_some() {
            assert(before[h as int] is Some);
            self.entries.set(h, None);
            assert(self@ =~= before.update(h as int, None));
            Ok(())
        } else {
            Err("capvm: 关闭无效句柄 ".to_string().concat(dec_string(h as u64).as_str()))
        }
    }

    /// How many handles stand for something.
    pub fn live(&self) -> (n: usize)
        ensures
            n == live_count(self@),
    {
        let mut n: usize = 0;
        let mut i: usize = 0;
        assert(self@.take(0) =~= Seq::empty());
        while i < self.entries.len()
            invariant
                i <= self.entries@.len(),
                n <= i,
                n == live_count(self@.take(i as int)),
            decreases self.entries@.len() - i,
        {
            assert(self@.take(i + 1).drop_last() =~= self@.take(i as int));
            assert(self@[i as int] is Some == self.entries@[i as int] is Some);
            if self.entries[i].is_some() {
                n += 1;
            }
            i += 1;
        }
        assert(self@.take(self.entries@.len() as int) =~= self@);
        n
    }
}

/// The handles after one was closed.
pub open spec fn closed(h: Seq<Option<Seq<char>>>, i: usize) -> Seq<Option<Seq<char>>> {
    if i < h.len() && h[i as int] is Some {
        h.update(i as int, None)
    } else {
        h
    }
}

/// What closing a handle comes to.
pub open spec fn closed_result(h: Seq<Option<Seq<char>>>, i: usize) -> Result<(), Seq<char>> {
    if i < h.len() && h[i as int] is Some {
        Ok(())
    } else {
        Err("capvm: 关闭无效句柄 "@ + text::dec(i as nat))
    }
}

/// A process as its host holds it: its handles, the session behind them, and
/// the ledger that the session asks.
pub struct GuestProcess<'a> {
    clist: CList,
    sess: &'a mut Session,
    ledger: &'a mut ConsentLedger,
}

/// A process, as contracts speak of it.
#[verifier::ext_equal]
pub struct ProcessV {
    pub handles: Seq<Option<Seq<char>>>,
    pub sess: SessionV,
    pub ledger: LedgerV,
}

impl<'a> View for GuestProcess<'a> {
    type V = ProcessV;

    closed spec fn view(&self) -> ProcessV {
        ProcessV { handles: self.clist@, sess: self.sess@, ledger: self.ledger@ }
    }
}

impl<'a> GuestProcess<'a> {
    /// The session and the ledger are well formed, and the references behind the
    /// handles can be shown.
    pub closed spec fn wf(&self) -> bool {
        &&& self.sess.wf()
        &&& self.ledger.wf()
        &&& forall|i: int|
            0 <= i < self@.handles.len() && (#[trigger] self@.handles[i]) is Some ==> show::showable(
                self@.handles[i]->0,
            )
    }

    /// A new process, which can name nothing.
    pub fn new(sess: &'a mut Session, ledger: &'a mut ConsentLedger) -> (r: GuestProcess<'a>)
        requires
            old(sess).wf(),
            old(ledger).wf(),
        ensures
            r.wf(),
            r.ready(),
            r@ == (ProcessV { handles: Seq::empty(), sess: old(sess)@, ledger: old(ledger)@ }),
    {
        GuestProcess { clist: CList::new(), sess, ledger }
    }

    /// Brings a capability into the process. Only the host can.
    pub fn install(&mut self, cap: CapRef) -> (h: usize)
        requires
            old(self).wf(),
            show::showable(cap@),
        ensures
            final(self).wf(),
            final(self).ready(),
            h == free_slot(old(self)@.handles),
            final(self)@ == (ProcessV { handles: installed(old(self)@.handles, cap@), ..old(self)@ }),
    {
        let ghost before = self@;
        proof {
            lemma_free_slot(before.handles);
        }
        let h = self.clist.install(cap);
        assert forall|i: int| 0 <= i < self@.handles.len() && (#[trigger] self@.handles[i]) is Some implies show::showable(
            self@.handles[i]->0,
        ) by {
            if i != h {
                assert(self@.handles[i] == before.handles[i]);
            }
        }
        h
    }

    /// How many handles the process can use: that is all its authority.
    pub fn live_handles(&self) -> (n: usize)
        ensures
            n == live_count(self@.handles),
    {
        self.clist.live()
    }
}

/// A subdirectory that the host is to open for a process.
pub struct SubPlan {
    r: CapRef,
    seg: String,
    fd: u64,
}

/// A subdirectory to open, as contracts speak of it.
#[verifier::ext_equal]
pub struct SubV {
    pub r: Seq<char>,
    pub seg: Seq<char>,
    pub fd: u64,
}

impl View for SubPlan {
    type V = SubV;

    closed spec fn view(&self) -> SubV {
        SubV { r: self.r@, seg: self.seg@, fd: self.fd }
    }
}

impl SubPlan {
    /// The held directory.
    pub fn fd(&self) -> (r: u64)
        ensures
            r == self@.fd,
    {
        self.fd
    }

    /// What is to be opened below it.
    pub fn seg(&self) -> (r: &str)
        ensures
            r@ == self@.seg,
    {
        self.seg.as_str()
    }
}

/// What a guest can ask for: everything by handle. It sees no session and no
/// reference, and cannot install anything. What is asked is carried out by the
/// host.
pub trait Syscalls {
    /// Whether the process is in order.
    spec fn ready(&self) -> bool;

    /// Whether a further request for consent can be numbered.
    spec fn can_ask(&self) -> bool;

    /// Asks to read below the directory that a handle stands for.
    fn cap_read(&mut self, h: usize, rel: &str) -> (res: Result<ReadPlan, String>)
        requires
            old(self).ready(),
        ensures
            final(self).ready(),
            final(self).can_ask() == old(self).can_ask(),
    ;

    /// Asks to list below the directory that a handle stands for.
    fn cap_list(&mut self, h: usize, rel: &str) -> (res: Result<ReadPlan, String>)
        requires
            old(self).ready(),
        ensures
            final(self).ready(),
            final(self).can_ask() == old(self).can_ask(),
    ;

    /// Asks to run the command that a handle stands for.
    fn cap_exec(&mut self, h: usize) -> (res: Result<ExecIntent, String>)
        requires
            old(self).ready(),
            old(self).can_ask(),
        ensures
            final(self).ready(),
    ;

    /// Asks for a handle to a subdirectory of the directory that a handle stands
    /// for.
    fn cap_derive_sub(&mut self, h: usize, seg: &str) -> (res: Result<SubPlan, String>)
        requires
            old(self).ready(),
        ensures
            final(self).ready(),
            final(self).can_ask() == old(self).can_ask(),
    ;

    /// Gives a handle back. What it stood for is not revoked by this.
    fn cap_close(&mut self, h: usize) -> (res: Result<(), String>)
        requires
            old(self).ready(),
        ensures
            final(self).ready(),
            final(self).can_ask() == old(self).can_ask(),
    ;
}

impl<'a> Syscalls for GuestProcess<'a> {
    open spec fn ready(&self) -> bool {
        self.wf()
    }

    open spec fn can_ask(&self) -> bool {
        self@.ledger.issued < u64::MAX
    }

    fn cap_read(&mut self, h: usize, rel: &str) -> (res: Result<ReadPlan, String>)
        ensures
            final(self)@.handles == old(self)@.handles,
            final(self)@.ledger == old(self)@.ledger,
            match resolved(old(self)@.handles, h) {
                Err(e) => res is Err && res->Err_0@ == e && final(self)@.sess == old(self)@.sess,
                Ok(c) => match old(self)@.sess.read_begun(c, rel@) {
                    (s, Ok(p)) => final(self)@.sess == s && res is Ok && res->Ok_0@ == p,
                    (s, Err(e)) => final(self)@.sess == s && res is Err && res->Err_0@ == e,
                },
            },
    {
        match self.clist.resolve(h) {
            Err(e) => Err(e),
            Ok(c) => {
                assert(self@.handles[h as int] is Some);
                self.sess.read(c.as_str(), rel)
            },
        }
    }

    fn cap_list(&mut self, h: usize, rel: &str) -> (res: Result<ReadPlan, String>)
        ensures
            final(self)@.handles == old(self)@.handles,
            final(self)@.ledger == old(self)@.ledger,
            match resolved(old(self)@.handles, h) {
                Err(e) => res is Err && res->Err_0@ == e && final(self)@.sess == old(self)@.sess,
                Ok(c) => match old(self)@.sess.list_begun(c, rel@) {
                    (s, Ok(p)) => final(self)@.sess == s && res is Ok && res->Ok_0@ == p,
                    (s, Err(e)) => final(self)@.sess == s && res is Err && res->Err_0@ == e,
                },
            },
    {
        match self.clist.resolve(h) {
            Err(e) => Err(e),
            Ok(c) => {
                assert(self@.handles[h as int] is Some);
                self.sess.list(c.as_str(), rel)
            },
        }
    }

    fn cap_exec(&mut self, h: usize) -> (res: Result<ExecIntent, String>)
        ensures
            final(self)@.handles == old(self)@.handles,
            final(self)@.ledger.issued <= old(self)@.ledger.issued + 1,
            match resolved(old(self)@.handles, h) {
                Err(e) => res is Err && res->Err_0@ == e && final(self)@ == old(self)@,
                Ok(c) => match old(self)@.sess.exec_begun(old(self)@.ledger, c) {
                    (s, l, Ok(_)) => final(self)@.sess == s && final(self)@.ledger == l && res is Ok
                        && res->Ok_0@ == c,
                    (s, l, Err(e)) => final(self)@.sess == s && final(self)@.ledger == l && res is Err
                        && res->Err_0@ == e,
                },
            },
    {
        match self.clist.resolve(h) {
            Err(e) => Err(e),
            Ok(c) => {
                assert(self@.handles[h as int] is Some);
                proof {
                    reveal(SessionV::exec_begun);
                }
                self.sess.exec(self.ledger, c.as_str())
            },
        }
    }

    fn cap_derive_sub(&mut self, h: usize, seg: &str) -> (res: Result<SubPlan, String>)
        ensures
            final(self)@.handles == old(self)@.handles,
            final(self)@.ledger == old(self)@.ledger,
            match resolved(old(self)@.handles, h) {
                Err(e) => res is Err && res->Err_0@ == e && final(self)@.sess == old(self)@.sess,
                Ok(c) => match old(self)@.sess.sub_begun(c, seg@) {
                    (s, Ok(fd)) => final(self)@.sess == s && res is Ok && res->Ok_0@ == (SubV {
                        r: c,
                        seg: seg@,
                        fd,
                    }) && show::showable(c),
                    (s, Err(e)) => final(self)@.sess == s && res is Err && res->Err_0@ == e,
                },
            },
    {
        match self.clist.resolve(h) {
            Err(e) => Err(e),
            Ok(c) => {
                assert(self@.handles[h as int] is Some);
                match self.sess.sub_plan(c.as_str(), seg) {
                    Err(e) => Err(e),
                    Ok(fd) => Ok(SubPlan { r: c, seg: seg.to_string(), fd }),
                }
            },
        }
    }

    fn cap_close(&mut self, h: usize) -> (res: Result<(), String>)
        ensures
            session::unit_view(res) == closed_result(old(self)@.handles, h),
            final(self)@ == (ProcessV { handles: closed(old(self)@.handles, h), ..old(self)@ }),
    {
        let ghost before = self@;
        let res = self.clist.close(h);
        assert forall|i: int| 0 <= i < self@.handles.len() && (#[trigger] self@.handles[i]) is Some implies show::showable(
            self@.handles[i]->0,
        ) by {
            assert(self@.handles[i] == before.handles[i]);
        }
        res
    }
}

impl<'a> GuestProcess<'a> {
    /// The process to hand to the guest, as something that can make system
    /// calls: a guest takes it as `&mut dyn Syscalls` or by that bound.
    pub fn syscalls(&mut self) -> (r: &mut GuestProcess<'a>)
        ensures
            *r == *old(self),
            *final(r) == *final(self),
    {
        self
    }

    /// The session, for the host to carry on what the guest asked for.
    pub fn session(&mut self) -> (r: &mut Session)
        requires
            old(self).wf(),
        ensures
            r.wf(),
            r@ == old(self)@.sess,
            final(self)@ == (ProcessV { sess: final(r)@, ..old(self)@ }),
            final(r).wf() ==> final(self).wf() && final(self).ready(),
    {
        self.sess
    }

    /// Installs a subdirectory for the guest once the host has opened it, and
    /// gives its handle.
    pub fn derive_done(&mut self, p: SubPlan, opened: Result<u64, String>, entropy: &[u8]) -> (res: Result<
        usize,
        String,
    >)
        requires
            old(self).wf(),
            show::showable(p@.r),
        ensures
            final(self).wf(),
            final(self).ready(),
            final(self)@.ledger == old(self)@.ledger,
            match old(self)@.sess.derived_sub(p@.r, p@.seg, session::number_view(opened), entropy@) {
                (s, Ok(id)) => final(self)@.sess == s && res == Ok::<usize, String>(
                    free_slot(old(self)@.handles) as usize,
                ) && final(self)@.handles == installed(old(self)@.handles, id),
                (s, Err(e)) => final(self)@.sess == s && res is Err && res->Err_0@ == e
                    && final(self)@.handles == old(self)@.handles,
            },
    {
        match self.sess.derive_sub(p.r.as_str(), p.seg.as_str(), opened, entropy) {
            Err(e) => Err(e),
            Ok(id) => {
                proof {
                    state::lemma_cap_id(entropy@);
                }
                Ok(self.install(id))
            },
        }
    }
}

/// A process begins without authority: no handle stands for anything.
pub proof fn law_no_authority_to_begin_with(h: usize)
    ensures
        resolved(Seq::empty(), h) is Err,
        live_count(Seq::empty()) == 0,
{
}

/// The handle that installing gives stands for what was installed, and every
/// other handle stands for what it did.
pub proof fn law_install(h: Seq<Option<Seq<char>>>, c: Seq<char>, other: usize)
    requires
        h.len() < usize::MAX,
        other != free_slot(h),
    ensures
        resolved(installed(h, c), free_slot(h) as usize) == Ok::<Seq<char>, Seq<char>>(c),
        resolved(installed(h, c), other) == resolved(h, other),
        resolved(h, free_slot(h) as usize) is Err,
        live_count(installed(h, c)) == live_count(h) + 1,
{
    lemma_free_slot(h);
    if free_slot(h) < h.len() {
        lemma_live_update(h, free_slot(h), Some(c));
    } else {
        assert(h.push(Some(c)).drop_last() =~= h);
    }
}

/// A handle that was closed stands for nothing and cannot be closed again; every
/// other handle stands for what it did.
pub proof fn law_close(h: Seq<Option<Seq<char>>>, i: usize, other: usize)
    requires
        closed_result(h, i) is Ok,
        other != i,
    ensures
        resolved(closed(h, i), i) is Err,
        closed_result(closed(h, i), i) is Err,
        resolved(closed(h, i), other) == resolved(h, other),
        live_count(closed(h, i)) + 1 == live_count(h),
{
    lemma_live_update(h, i as int, None);
}

proof fn lemma_live_update(h: Seq<Option<Seq<char>>>, i: int, e: Option<Seq<char>>)
    requires
        0 <= i < h.len(),
    ensures
        live_count(h.update(i, e)) + (if h[i] is Some {
            1nat
        } else {
            0
        }) == live_count(h) + (if e is Some {
            1nat
        } else {
            0
        }),
    decreases h.len(),
{
    if i == h.len() - 1 {
        assert(h.update(i, e).drop_last() =~= h.drop_last());
    } else {
        assert(h.update(i, e).drop_last() =~= h.drop_last().update(i, e));
        lemma_live_update(h.drop_last(), i, e);
    }
}

/// What is installed goes to the smallest handle that stands for nothing: every smaller
/// one stands for something. A handle stands for a capability just where that was put
/// there.
pub proof fn law_smallest_handle(h: Seq<Option<Seq<char>>>, i: usize, c: Seq<char>)
    ensures
        0 <= free_slot(h) <= h.len(),
        forall|k: int| 0 <= k < free_slot(h) ==> (#[trigger] h[k]) is Some,
        free_slot(h) < h.len() ==> h[free_slot(h)] is None,
        resolved(h, i) == Ok::<Seq<char>, Seq<char>>(c) <==> i < h.len() && h[i as int] == Some(c),
        resolved(h, i) is Ok <==> i < h.len() && h[i as int] is Some,
        closed_result(h, i) is Ok <==> resolved(h, i) is Ok,
{
    lemma_free_slot(h);
}

} // verus!
