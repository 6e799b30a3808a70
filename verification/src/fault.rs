//! A backend that injects faults into the calls of another backend.

use bytes::Bytes;
use vstd::prelude::*;

use crate::backend::{self, ReadBackend, WriteBackend};
use crate::buffer::{self, BytesList};
use crate::error::{BackendCall, BackendOp, RusticError, RusticResult};
use crate::file_type::FileType;
use crate::id::Id;

verus! {

/// The start of the message of each error that [`FaultInjectionBackend`] injects.
pub const INJECTED_FAULT: &'static str = "Injected fault";

/// A fault that [`FaultInjectionBackend`] injects into a call.
#[derive(Debug, Clone, Copy, PartialEq, Eq, Structural)]
pub enum Fault {
    /// The call returns an error. The inner backend does not get the call.
    Error,
    /// The backend inverts the last byte of the data that a read returns.
    ///
    /// A read that gets no data returns an error.
    /// A listing, a write and a removal return an error, as with [`Fault::Error`].
    Corrupt,
    /// The backend removes the last byte of the data that a read returns.
    ///
    /// A read that gets no data returns an error.
    /// A listing, a write and a removal return an error, as with [`Fault::Error`].
    Truncate,
}

impl Fault {
    /// The name of the fault.
    pub open spec fn name_text(self) -> Seq<char> {
        match self {
            Fault::Error => "Error"@,
            Fault::Corrupt => "Corrupt"@,
            Fault::Truncate => "Truncate"@,
        }
    }

    /// Gives the name of the fault.
    pub fn name(self) -> (r: &'static str)
        ensures
            r@ == self.name_text(),
    {
        match self {
            Fault::Error => "Error",
            Fault::Corrupt => "Corrupt",
            Fault::Truncate => "Truncate",
        }
    }
}

/// The data with its last byte inverted.
pub open spec fn corrupted(data: Seq<u8>) -> Seq<u8> {
    data.drop_last().push(!data.last())
}

/// The result of a read for `call` that has the fault `fault` and gets `inner`.
pub open spec fn read_outcome(
    call: BackendCall,
    fault: Option<Fault>,
    inner: Result<Seq<u8>, RusticError>,
) -> Result<Seq<u8>, RusticError> {
    match fault {
        None => inner,
        Some(Fault::Error) => Err(RusticError::InjectedFault { call }),
        Some(fault) => match inner {
            Err(err) => Err(err),
            Ok(data) => if data.len() == 0 {
                Err(RusticError::InjectedFault { call })
            } else if fault is Corrupt {
                Ok(corrupted(data))
            } else {
                Ok(data.drop_last())
            },
        },
    }
}

/// Creates the error for a call with a fault.
fn injected_error(call: &BackendCall) -> (r: RusticError)
    ensures
        r == (RusticError::InjectedFault { call: *call }),
{
    RusticError::InjectedFault { call: *call }
}

/// Inverts the last byte of `data`.
///
/// # Returns
///
/// The changed data, or `None` if `data` is empty.
pub fn corrupt(data: Bytes) -> (r: Option<Bytes>)
    ensures
        match r {
            Some(changed) => buffer::bytes_seq(data).len() > 0 && buffer::bytes_seq(changed)
                == corrupted(buffer::bytes_seq(data)),
            None => buffer::bytes_seq(data).len() == 0,
        },
{
    let mut bytes = buffer::into_vec(data);
    match bytes.pop() {
        Some(last) => {
            bytes.push(!last);
            assert(bytes@ =~= corrupted(buffer::bytes_seq(data)));
            Some(buffer::from_vec(bytes))
        },
        None => None,
    }
}

/// Removes the last byte of `data`.
///
/// # Returns
///
/// The changed data, or `None` if `data` is empty.
pub fn truncate(data: Bytes) -> (r: Option<Bytes>)
    ensures
        match r {
            Some(changed) => buffer::bytes_seq(data).len() > 0 && buffer::bytes_seq(changed)
                == buffer::bytes_seq(data).drop_last(),
            None => buffer::bytes_seq(data).len() == 0,
        },
{
    let len: usize = buffer::as_slice(&data).len();
    if len == 0 {
        None
    } else {
        Some(buffer::slice(&data, 0, len - 1))
    }
}

/// Gives the result of a read for `call` that has the fault `fault` and gets `inner`.
pub fn inject_into_read(
    call: &BackendCall,
    fault: Option<Fault>,
    inner: RusticResult<Bytes>,
) -> (r: RusticResult<Bytes>)
    ensures
        backend::seen(r) == read_outcome(*call, fault, backend::seen(inner)),
{
    let changed = match fault {
        None => {
            return inner;
        },
        Some(Fault::Error) => None,
        Some(Fault::Corrupt) => match inner {
            Ok(data) => corrupt(data),
            Err(err) => {
                return Err(err);
            },
        },
        Some(Fault::Truncate) => match inner {
            Ok(data) => truncate(data),
            Err(err) => {
                return Err(err);
            },
        },
    };
    match changed {
        Some(data) => Ok(data),
        None => Err(injected_error(call)),
    }
}

/// The call of a listing.
pub open spec fn list_call(tpe: FileType) -> BackendCall {
    BackendCall { op: BackendOp::List, tpe, id: None }
}

/// The call of an operation on one file.
pub open spec fn file_call(op: BackendOp, tpe: FileType, id: Id) -> BackendCall {
    BackendCall { op, tpe, id: Some(id) }
}

/// A backend that injects faults into the calls of an inner backend.
///
/// A rule decides the fault for each call.
/// A call without a fault goes to the inner backend without change.
#[verifier::reject_recursive_types(B)]
#[verifier::reject_recursive_types(R)]
#[derive(Debug)]
pub struct FaultInjectionBackend<B: WriteBackend, R: Fn(&BackendCall) -> Option<Fault>> {
    /// The backend that gets the calls without a fault.
    pub inner: B,
    /// The rule that decides the fault for each call.
    pub rule: Option<R>,
}

impl<B: WriteBackend, R: Fn(&BackendCall) -> Option<Fault>> FaultInjectionBackend<B, R> {
    /// Whether the rule can decide `fault` for `call`.
    pub open spec fn decides(&self, call: BackendCall, fault: Option<Fault>) -> bool {
        match self.rule {
            None => fault is None,
            Some(rule) => call_ensures(rule, (&call,), fault),
        }
    }

    /// Whether the rule decides about `call`.
    pub open spec fn takes(&self, call: BackendCall) -> bool {
        match self.rule {
            None => true,
            Some(rule) => call_requires(rule, (&call,)),
        }
    }

    /// Whether `call` can reach the inner backend as a read.
    pub open spec fn can_reach(&self, call: BackendCall) -> bool {
        exists|fault: Option<Fault>| #[trigger]
            self.decides(call, fault) && fault != Some(Fault::Error)
    }

    /// Whether `call` can reach the inner backend as a listing, a write or a removal.
    pub open spec fn can_pass(&self, call: BackendCall) -> bool {
        self.decides(call, None)
    }

    /// Whether a read for `call` can give `r` where the inner backend can give each result that
    /// `inner` holds for.
    pub open spec fn reads(
        &self,
        call: BackendCall,
        inner: spec_fn(Result<Seq<u8>, RusticError>) -> bool,
        r: Result<Seq<u8>, RusticError>,
    ) -> bool {
        exists|fault: Option<Fault>, got: Result<Seq<u8>, RusticError>|
            {
                &&& #[trigger] self.decides(call, fault)
                &&& fault == Some(Fault::Error) || inner(got)
                &&& r == #[trigger] read_outcome(call, fault, got)
            }
    }

    /// Whether the rule can fail `call`, so that its error is `err`.
    pub open spec fn refuses(&self, call: BackendCall, err: RusticError) -> bool {
        &&& exists|fault: Fault| self.decides(call, Some(fault))
        &&& err == RusticError::InjectedFault { call }
    }

    /// Whether the rule can decide no fault for any call.
    pub open spec fn is_quiet(&self) -> bool {
        forall|call: BackendCall, fault: Option<Fault>| #[trigger]
            self.decides(call, fault) ==> fault is None
    }

    /// Creates a backend that sends each call to `inner`, without faults.
    pub fn new(inner: B) -> (r: Self)
        ensures
            r.inner == inner,
            r.rule is None,
    {
        FaultInjectionBackend { inner, rule: None }
    }

    /// Sets the rule that decides the fault for each call after this call.
    ///
    /// The rule replaces the previous rule.
    /// For a call without a fault, the rule returns `None`.
    pub fn inject(&mut self, rule: R)
        ensures
            final(self).inner == old(self).inner,
            final(self).rule == Some(rule),
    {
        self.rule = Some(rule);
    }

    /// Removes the rule. The calls after this call go to the inner backend without change.
    pub fn clear(&mut self)
        ensures
            final(self).inner == old(self).inner,
            final(self).rule is None,
    {
        self.rule = None;
    }

    /// Gives the fault that the rule decides for `call`.
    fn fault(&self, call: &BackendCall) -> (r: Option<Fault>)
        requires
            self.takes(*call),
        ensures
            self.decides(*call, r),
    {
        match &self.rule {
            None => None,
            Some(rule) => rule(call),
        }
    }

    /// Returns an error if the rule decides a fault for `call`, which is no read.
    ///
    /// # Errors
    ///
    /// * If the rule decides a fault for `call`.
    pub fn check(&self, call: &BackendCall) -> (r: RusticResult<()>)
        requires
            self.takes(*call),
        ensures
            match r {
                Ok(()) => self.can_pass(*call),
                Err(err) => self.refuses(*call, err),
            },
    {
        match self.fault(call) {
            None => Ok(()),
            Some(fault) => {
                assert(self.decides(*call, Some(fault)));
                Err(injected_error(call))
            },
        }
    }

    /// Returns an error if the rule decides that the read `call` does not reach the inner backend.
    ///
    /// # Errors
    ///
    /// * If the rule decides [`Fault::Error`] for `call`.
    pub fn check_read(&self, call: &BackendCall) -> (r: RusticResult<()>)
        requires
            self.takes(*call),
        ensures
            match r {
                Ok(()) => self.can_reach(*call),
                Err(err) => self.decides(*call, Some(Fault::Error)) && err
                    == RusticError::InjectedFault { call: *call },
            },
    {
        match self.fault(call) {
            Some(Fault::Error) => Err(injected_error(call)),
            _ => Ok(()),
        }
    }
}

impl<B: WriteBackend, R: Fn(&BackendCall) -> Option<Fault>> ReadBackend for FaultInjectionBackend<
    B,
    R,
> {
    open spec fn location_text(&self) -> Seq<char> {
        self.inner.location_text()
    }

    open spec fn can_list(&self, tpe: FileType) -> bool {
        self.takes(list_call(tpe)) && (self.can_pass(list_call(tpe)) ==> self.inner.can_list(tpe))
    }

    open spec fn lists(&self, tpe: FileType, r: Result<Seq<(Id, u32)>, RusticError>) -> bool {
        ||| self.can_pass(list_call(tpe)) && self.inner.lists(tpe, r)
        ||| r is Err && self.refuses(list_call(tpe), r->Err_0)
    }

    open spec fn can_read_full(&self, tpe: FileType, id: Id) -> bool {
        let call = file_call(BackendOp::ReadFull, tpe, id);
        self.takes(call) && (self.can_reach(call) ==> self.inner.can_read_full(tpe, id))
    }

    open spec fn reads_full(&self, tpe: FileType, id: Id, r: Result<Seq<u8>, RusticError>) -> bool {
        self.reads(
            file_call(BackendOp::ReadFull, tpe, id),
            |got: Result<Seq<u8>, RusticError>| self.inner.reads_full(tpe, id, got),
            r,
        )
    }

    open spec fn can_read_partial(
        &self,
        tpe: FileType,
        id: Id,
        offset: u32,
        length: u32,
    ) -> bool {
        let call = file_call(BackendOp::ReadPartial, tpe, id);
        self.takes(call) && (self.can_reach(call) ==> self.inner.can_read_partial(
            tpe,
            id,
            offset,
            length,
        ))
    }

    open spec fn reads_partial(
        &self,
        tpe: FileType,
        id: Id,
        cacheable: bool,
        offset: u32,
        length: u32,
        r: Result<Seq<u8>, RusticError>,
    ) -> bool {
        self.reads(
            file_call(BackendOp::ReadPartial, tpe, id),
            |got: Result<Seq<u8>, RusticError>|
                self.inner.reads_partial(tpe, id, cacheable, offset, length, got),
            r,
        )
    }

    open spec fn warmup_text(&self, tpe: FileType, id: Id) -> Seq<char> {
        self.inner.warmup_text(tpe, id)
    }

    open spec fn is_cold(&self) -> bool {
        self.inner.is_cold()
    }

    open spec fn warms_up(
        &self,
        tpe: FileType,
        id: Id,
        r: RusticResult<()>,
        after: Self,
    ) -> bool {
        self.inner.warms_up(tpe, id, r, after.inner) && after.rule == self.rule
    }

    fn location(&self) -> (r: String) {
        self.inner.location()
    }

    fn list_with_size(&self, tpe: FileType) -> (r: RusticResult<Vec<(Id, u32)>>) {
        match self.check(&BackendCall { op: BackendOp::List, tpe, id: None }) {
            Ok(()) => self.inner.list_with_size(tpe),
            Err(err) => Err(err),
        }
    }

    fn list(&self, tpe: FileType) -> (r: RusticResult<Vec<Id>>) {
        match self.check(&BackendCall { op: BackendOp::List, tpe, id: None }) {
            Ok(()) => {
                let r = self.inner.list(tpe);
                proof {
                    let files = choose|files: Result<Seq<(Id, u32)>, RusticError>| #[trigger]
                        self.inner.lists(tpe, files) && backend::ids_of(files) == (match r {
                            Ok(ids) => Ok(ids@),
                            Err(err) => Err(err),
                        });
                    assert(self.lists(tpe, files));
                }
                r
            },
            Err(err) => {
                assert(self.lists(tpe, Err(err)));
                Err(err)
            },
        }
    }

    fn read_full(&self, tpe: FileType, id: &Id) -> (r: RusticResult<Bytes>) {
        let call = BackendCall { op: BackendOp::ReadFull, tpe, id: Some(*id) };
        let fault = self.fault(&call);
        let got = match fault {
            Some(Fault::Error) => Err(injected_error(&call)),
            _ => self.inner.read_full(tpe, id),
        };
        let ghost seen = backend::seen(got);
        let r = inject_into_read(&call, fault, got);
        assert(backend::seen(r) == read_outcome(call, fault, seen));
        r
    }

    fn read_partial(
        &self,
        tpe: FileType,
        id: &Id,
        cacheable: bool,
        offset: u32,
        length: u32,
    ) -> (r: RusticResult<Bytes>) {
        let call = BackendCall { op: BackendOp::ReadPartial, tpe, id: Some(*id) };
        let fault = self.fault(&call);
        let got = match fault {
            Some(Fault::Error) => Err(injected_error(&call)),
            _ => self.inner.read_partial(tpe, id, cacheable, offset, length),
        };
        let ghost seen = backend::seen(got);
        let r = inject_into_read(&call, fault, got);
        assert(backend::seen(r) == read_outcome(call, fault, seen));
        r
    }

    fn warmup_path(&self, tpe: FileType, id: &Id) -> (r: String) {
        self.inner.warmup_path(tpe, id)
    }

    fn needs_warm_up(&self) -> (r: bool) {
        self.inner.needs_warm_up()
    }

    fn warm_up(&mut self, tpe: FileType, id: &Id) -> (r: RusticResult<()>) {
        self.inner.warm_up(tpe, id)
    }
}

impl<B: WriteBackend, R: Fn(&BackendCall) -> Option<Fault>> WriteBackend for FaultInjectionBackend<
    B,
    R,
> {
    open spec fn creates(&self, r: RusticResult<()>, after: Self) -> bool {
        self.inner.creates(r, after.inner) && after.rule == self.rule
    }

    open spec fn can_write(&self, tpe: FileType, id: Id, content: Seq<u8>) -> bool {
        let call = file_call(BackendOp::Write, tpe, id);
        self.takes(call) && (self.can_pass(call) ==> self.inner.can_write(tpe, id, content))
    }

    open spec fn writes(
        &self,
        tpe: FileType,
        id: Id,
        cacheable: bool,
        content: Seq<u8>,
        r: RusticResult<()>,
        after: Self,
    ) -> bool {
        let call = file_call(BackendOp::Write, tpe, id);
        &&& after.rule == self.rule
        &&& {
            ||| self.can_pass(call) && self.inner.writes(tpe, id, cacheable, content, r, after.inner)
            ||| r is Err && self.refuses(call, r->Err_0) && after.inner == self.inner
        }
    }

    open spec fn can_remove(&self, tpe: FileType, id: Id) -> bool {
        let call = file_call(BackendOp::Remove, tpe, id);
        self.takes(call) && (self.can_pass(call) ==> self.inner.can_remove(tpe, id))
    }

    open spec fn removes(
        &self,
        tpe: FileType,
        id: Id,
        cacheable: bool,
        r: RusticResult<()>,
        after: Self,
    ) -> bool {
        let call = file_call(BackendOp::Remove, tpe, id);
        &&& after.rule == self.rule
        &&& {
            ||| self.can_pass(call) && self.inner.removes(tpe, id, cacheable, r, after.inner)
            ||| r is Err && self.refuses(call, r->Err_0) && after.inner == self.inner
        }
    }

    fn create(&mut self) -> (r: RusticResult<()>) {
        self.inner.create()
    }

    fn write_bytes(
        &mut self,
        tpe: FileType,
        id: &Id,
        cacheable: bool,
        content: BytesList,
    ) -> (r: RusticResult<()>) {
        match self.check(&BackendCall { op: BackendOp::Write, tpe, id: Some(*id) }) {
            Ok(()) => self.inner.write_bytes(tpe, id, cacheable, content),
            Err(err) => Err(err),
        }
    }

    fn remove(&mut self, tpe: FileType, id: &Id, cacheable: bool) -> (r: RusticResult<()>) {
        match self.check(&BackendCall { op: BackendOp::Remove, tpe, id: Some(*id) }) {
            Ok(()) => self.inner.remove(tpe, id, cacheable),
            Err(err) => Err(err),
        }
    }
}

/// Without a rule, each call gives what the inner backend gives, and changes what the inner
/// backend changes.
pub proof fn law_no_rule_is_transparent<B: WriteBackend, R: Fn(&BackendCall) -> Option<Fault>>(
    be: FaultInjectionBackend<B, R>,
    after: FaultInjectionBackend<B, R>,
    tpe: FileType,
    id: Id,
    cacheable: bool,
    offset: u32,
    length: u32,
    content: Seq<u8>,
    files: Result<Seq<(Id, u32)>, RusticError>,
    data: Result<Seq<u8>, RusticError>,
    r: RusticResult<()>,
)
    requires
        be.rule is None,
    ensures
        be.can_list(tpe) == be.inner.can_list(tpe),
        be.lists(tpe, files) == be.inner.lists(tpe, files),
        be.can_read_full(tpe, id) == be.inner.can_read_full(tpe, id),
        be.reads_full(tpe, id, data) == be.inner.reads_full(tpe, id, data),
        be.can_read_partial(tpe, id, offset, length) == be.inner.can_read_partial(
            tpe,
            id,
            offset,
            length,
        ),
        be.reads_partial(tpe, id, cacheable, offset, length, data) == be.inner.reads_partial(
            tpe,
            id,
            cacheable,
            offset,
            length,
            data,
        ),
        be.writes(tpe, id, cacheable, content, r, after) <==> after.rule is None && be.inner.writes(
            tpe,
            id,
            cacheable,
            content,
            r,
            after.inner,
        ),
        be.removes(tpe, id, cacheable, r, after) <==> after.rule is None && be.inner.removes(
            tpe,
            id,
            cacheable,
            r,
            after.inner,
        ),
{
    let full = file_call(BackendOp::ReadFull, tpe, id);
    let part = file_call(BackendOp::ReadPartial, tpe, id);
    assert(be.decides(full, None) && be.decides(part, None));
    assert(read_outcome(full, None, data) == data);
    assert(read_outcome(part, None, data) == data);
}

/// A listing, a write and a removal with a fault return the injected error, and change nothing.
pub proof fn law_fault_changes_nothing<B: WriteBackend, R: Fn(&BackendCall) -> Option<Fault>>(
    be: FaultInjectionBackend<B, R>,
    after: FaultInjectionBackend<B, R>,
    tpe: FileType,
    id: Id,
    cacheable: bool,
    content: Seq<u8>,
    r: RusticResult<()>,
)
    ensures
        be.writes(tpe, id, cacheable, content, r, after) && !be.can_pass(
            file_call(BackendOp::Write, tpe, id),
        ) ==> after == be && r == Err::<(), RusticError>(
            RusticError::InjectedFault { call: file_call(BackendOp::Write, tpe, id) },
        ),
        be.removes(tpe, id, cacheable, r, after) && !be.can_pass(
            file_call(BackendOp::Remove, tpe, id),
        ) ==> after == be && r == Err::<(), RusticError>(
            RusticError::InjectedFault { call: file_call(BackendOp::Remove, tpe, id) },
        ),
        forall|files: Result<Seq<(Id, u32)>, RusticError>| #[trigger]
            be.lists(tpe, files) && !be.can_pass(list_call(tpe)) ==> files == Err::<
                Seq<(Id, u32)>,
                RusticError,
            >(RusticError::InjectedFault { call: list_call(tpe) }),
{
}

/// Whether `r` is the injected error for `call`, or what the fault `fault` makes of a read that the
/// inner backend can give.
pub open spec fn has_fault(
    call: BackendCall,
    fault: Fault,
    inner: spec_fn(Result<Seq<u8>, RusticError>) -> bool,
    r: Result<Seq<u8>, RusticError>,
) -> bool {
    if fault is Error {
        r == Err::<Seq<u8>, RusticError>(RusticError::InjectedFault { call })
    } else {
        exists|got: Result<Seq<u8>, RusticError>|
            inner(got) && r == #[trigger] read_outcome(call, Some(fault), got)
    }
}

/// A read for which the rule decides one fault gives the injected error, or what the fault makes of
/// a read of the inner backend.
pub proof fn law_read_has_fault<B: WriteBackend, R: Fn(&BackendCall) -> Option<Fault>>(
    be: FaultInjectionBackend<B, R>,
    tpe: FileType,
    id: Id,
    cacheable: bool,
    offset: u32,
    length: u32,
    fault: Fault,
    r: Result<Seq<u8>, RusticError>,
)
    ensures
        (forall|f: Option<Fault>| #[trigger]
            be.decides(file_call(BackendOp::ReadFull, tpe, id), f) ==> f == Some(fault))
            && be.reads_full(tpe, id, r) ==> has_fault(
            file_call(BackendOp::ReadFull, tpe, id),
            fault,
            |got: Result<Seq<u8>, RusticError>| be.inner.reads_full(tpe, id, got),
            r,
        ),
        (forall|f: Option<Fault>| #[trigger]
            be.decides(file_call(BackendOp::ReadPartial, tpe, id), f) ==> f == Some(fault))
            && be.reads_partial(tpe, id, cacheable, offset, length, r) ==> has_fault(
            file_call(BackendOp::ReadPartial, tpe, id),
            fault,
            |got: Result<Seq<u8>, RusticError>|
                be.inner.reads_partial(tpe, id, cacheable, offset, length, got),
            r,
        ),
{
}

/// The message of each injected error starts with [`INJECTED_FAULT`].
pub proof fn law_injected_message(call: BackendCall)
    ensures
        (RusticError::InjectedFault { call }).message_text().take(INJECTED_FAULT@.len() as int)
            == INJECTED_FAULT@,
{
    reveal_strlit("Injected fault");
    reveal_strlit("Injected fault in the call `");
    assert((RusticError::InjectedFault { call }).message_text().take(INJECTED_FAULT@.len() as int)
        =~= INJECTED_FAULT@);
}

/// A corrupt read gives data of the same length that differs in the last byte, and a truncated
/// read gives one byte less.
pub proof fn law_changed_data(data: Seq<u8>)
    requires
        data.len() > 0,
    ensures
        corrupted(data).len() == data.len(),
        corrupted(data).drop_last() == data.drop_last(),
        corrupted(data) != data,
        corrupted(corrupted(data)) == data,
        data.drop_last().len() == data.len() - 1,
{
    let last = data.last();
    assert(!last != last && !(!last) == last) by (bit_vector);
    assert(corrupted(data).drop_last() =~= data.drop_last());
    assert(corrupted(data).last() != data.last());
    assert(corrupted(corrupted(data)) =~= data);
}

/// Corrupt data has the length of the data, the same bytes up to the last one, and a last byte with
/// each bit inverted. Truncated data is the data without its last byte. Empty data has no last byte
/// to change.
pub proof fn law_changes_touch_the_last_byte(
    data: Bytes,
    corrupted_data: Option<Bytes>,
    truncated_data: Option<Bytes>,
    i: int,
)
    requires
        call_ensures(corrupt, (data,), corrupted_data),
        call_ensures(truncate, (data,), truncated_data),
        0 <= i < buffer::bytes_seq(data).len() - 1,
    ensures
        corrupted_data is Some,
        truncated_data is Some,
        ({
            let before = buffer::bytes_seq(data);
            let changed = buffer::bytes_seq(corrupted_data->0);
            let shorter = buffer::bytes_seq(truncated_data->0);
            &&& changed.len() == before.len()
            &&& changed[i] == before[i]
            &&& changed[before.len() - 1] + before[before.len() - 1] == 255
            &&& shorter.len() == before.len() - 1
            &&& shorter[i] == before[i]
        }),
{
    let last = buffer::bytes_seq(data).last();
    assert(!last + last == 255) by (bit_vector);
}

/// A single byte is inverted or removed like the last byte of longer data, and empty data is not
/// changed.
pub proof fn law_changes_of_short_data(
    data: Bytes,
    corrupted_data: Option<Bytes>,
    truncated_data: Option<Bytes>,
)
    requires
        call_ensures(corrupt, (data,), corrupted_data),
        call_ensures(truncate, (data,), truncated_data),
    ensures
        corrupted_data is None <==> buffer::bytes_seq(data).len() == 0,
        truncated_data is None <==> buffer::bytes_seq(data).len() == 0,
        buffer::bytes_seq(data).len() == 1 ==> {
            &&& buffer::bytes_seq(corrupted_data->0).len() == 1
            &&& buffer::bytes_seq(corrupted_data->0)[0] + buffer::bytes_seq(data)[0] == 255
            &&& buffer::bytes_seq(truncated_data->0).len() == 0
        },
{
    if buffer::bytes_seq(data).len() > 0 {
        let last = buffer::bytes_seq(data).last();
        assert(!last + last == 255) by (bit_vector);
    }
}

/// A read without a fault gives the data or the error of the inner read. [`Fault::Error`] gives the
/// injected error of the call, whatever the inner read gave. The other faults leave an inner error as
/// it is, change data at its end, and give the injected error for empty data.
pub proof fn law_each_fault_of_a_read(
    call: BackendCall,
    fault: Option<Fault>,
    inner: RusticResult<Bytes>,
    r: RusticResult<Bytes>,
)
    requires
        call_ensures(inject_into_read, (&call, fault, inner), r),
    ensures
        fault is None && inner is Ok ==> r is Ok && buffer::bytes_seq(r->Ok_0) == buffer::bytes_seq(
            inner->Ok_0,
        ),
        fault is None && inner is Err ==> r is Err && r->Err_0 == inner->Err_0,
        fault == Some(Fault::Error) ==> r is Err && r->Err_0 == (RusticError::InjectedFault {
            call,
        }),
        fault is Some && fault != Some(Fault::Error) && inner is Err ==> r is Err && r->Err_0
            == inner->Err_0,
        fault is Some && inner is Ok && buffer::bytes_seq(inner->Ok_0).len() == 0 ==> r is Err
            && r->Err_0 == (RusticError::InjectedFault { call }),
        fault == Some(Fault::Corrupt) && inner is Ok && buffer::bytes_seq(inner->Ok_0).len() > 0
            ==> {
            let before = buffer::bytes_seq(inner->Ok_0);
            &&& r is Ok
            &&& buffer::bytes_seq(r->Ok_0).len() == before.len()
            &&& buffer::bytes_seq(r->Ok_0).take(before.len() - 1) == before.take(before.len() - 1)
            &&& buffer::bytes_seq(r->Ok_0).last() + before.last() == 255
        },
        fault == Some(Fault::Truncate) && inner is Ok && buffer::bytes_seq(inner->Ok_0).len() > 0
            ==> r is Ok && buffer::bytes_seq(r->Ok_0) == buffer::bytes_seq(inner->Ok_0).take(
            buffer::bytes_seq(inner->Ok_0).len() - 1,
        ),
{
    if inner is Ok && buffer::bytes_seq(inner->Ok_0).len() > 0 {
        let before = buffer::bytes_seq(inner->Ok_0);
        let last = before.last();
        assert(!last + last == 255) by (bit_vector);
        assert(corrupted(before).take(before.len() - 1) =~= before.take(before.len() - 1));
        assert(before.drop_last() =~= before.take(before.len() - 1));
        if fault == Some(Fault::Corrupt) {
            assert(backend::seen(r) == Ok::<Seq<u8>, RusticError>(corrupted(before)));
        }
        if fault == Some(Fault::Truncate) {
            assert(backend::seen(r) == Ok::<Seq<u8>, RusticError>(before.drop_last()));
        }
    }
}

/// The rule gets each operation, with the file type and the ID of the call. A fault of a write and of
/// a removal gives the injected error of this call, and the inner backend stays as it is. Without a
/// fault, the inner backend does the operation with the same arguments. The rule stays.
pub proof fn law_rule_decides_changes<B: WriteBackend, R: Fn(&BackendCall) -> Option<Fault>>(
    be: &mut FaultInjectionBackend<B, R>,
    other: &mut FaultInjectionBackend<B, R>,
    tpe: FileType,
    id: Id,
    cacheable: bool,
    content: BytesList,
    written: RusticResult<()>,
    removed: RusticResult<()>,
    rule: R,
    fault: Option<Fault>,
)
    requires
        call_ensures(
            <FaultInjectionBackend<B, R> as WriteBackend>::write_bytes,
            (be, tpe, &id, cacheable, content),
            written,
        ),
        call_ensures(
            <FaultInjectionBackend<B, R> as WriteBackend>::remove,
            (other, tpe, &id, cacheable),
            removed,
        ),
        old(be).rule == Some(rule),
        old(other).rule == Some(rule),
        forall|call: BackendCall, f: Option<Fault>|
            (call == (BackendCall { op: BackendOp::Write, tpe, id: Some(id) }) || call == (
            BackendCall { op: BackendOp::Remove, tpe, id: Some(id) })) && #[trigger] call_ensures(
                rule,
                (&call,),
                f,
            ) ==> f == fault,
    ensures
        final(be).rule == Some(rule),
        final(other).rule == Some(rule),
        fault is Some ==> {
            &&& written is Err
            &&& written->Err_0 == (RusticError::InjectedFault {
                call: BackendCall { op: BackendOp::Write, tpe, id: Some(id) },
            })
            &&& final(be).inner == old(be).inner
            &&& removed is Err
            &&& removed->Err_0 == (RusticError::InjectedFault {
                call: BackendCall { op: BackendOp::Remove, tpe, id: Some(id) },
            })
            &&& final(other).inner == old(other).inner
        },
        fault is None ==> {
            &&& old(be).inner.writes(tpe, id, cacheable, content@, written, final(be).inner)
            &&& old(other).inner.removes(tpe, id, cacheable, removed, final(other).inner)
        },
{
    let write = file_call(BackendOp::Write, tpe, id);
    let remove = file_call(BackendOp::Remove, tpe, id);
    assert forall|f: Option<Fault>| #[trigger] old(be).decides(write, f) implies f == fault by {
        assert(call_ensures(rule, (&write,), f));
    }
    assert forall|f: Option<Fault>| #[trigger] old(other).decides(remove, f) implies f == fault by {
        assert(call_ensures(rule, (&remove,), f));
    }
}

/// A fault of a listing gives the injected error of the call, without an ID. [`Fault::Error`] of a
/// read gives the injected error of the call. Without a fault, the inner backend gives the result.
pub proof fn law_rule_decides_reads<B: WriteBackend, R: Fn(&BackendCall) -> Option<Fault>>(
    be: FaultInjectionBackend<B, R>,
    tpe: FileType,
    id: Id,
    cacheable: bool,
    offset: u32,
    length: u32,
    files: RusticResult<Vec<(Id, u32)>>,
    full: RusticResult<Bytes>,
    part: RusticResult<Bytes>,
    rule: R,
    fault: Option<Fault>,
)
    requires
        call_ensures(
            <FaultInjectionBackend<B, R> as ReadBackend>::list_with_size,
            (&be, tpe),
            files,
        ),
        call_ensures(
            <FaultInjectionBackend<B, R> as ReadBackend>::read_full,
            (&be, tpe, &id),
            full,
        ),
        call_ensures(
            <FaultInjectionBackend<B, R> as ReadBackend>::read_partial,
            (&be, tpe, &id, cacheable, offset, length),
            part,
        ),
        be.rule == Some(rule),
        forall|call: BackendCall, f: Option<Fault>|
            (call == (BackendCall { op: BackendOp::List, tpe, id: None }) || call == (BackendCall {
                op: BackendOp::ReadFull,
                tpe,
                id: Some(id),
            }) || call == (BackendCall { op: BackendOp::ReadPartial, tpe, id: Some(id) }))
                && #[trigger] call_ensures(rule, (&call,), f) ==> f == fault,
    ensures
        fault is Some ==> files is Err && files->Err_0 == (RusticError::InjectedFault {
            call: BackendCall { op: BackendOp::List, tpe, id: None },
        }),
        fault == Some(Fault::Error) ==> {
            &&& full is Err
            &&& full->Err_0 == (RusticError::InjectedFault {
                call: BackendCall { op: BackendOp::ReadFull, tpe, id: Some(id) },
            })
            &&& part is Err
            &&& part->Err_0 == (RusticError::InjectedFault {
                call: BackendCall { op: BackendOp::ReadPartial, tpe, id: Some(id) },
            })
        },
        fault is None ==> {
            &&& be.inner.lists(tpe, backend::listed(files))
            &&& be.inner.reads_full(tpe, id, backend::seen(full))
            &&& be.inner.reads_partial(tpe, id, cacheable, offset, length, backend::seen(part))
        },
{
    let list = list_call(tpe);
    let read = file_call(BackendOp::ReadFull, tpe, id);
    let partial = file_call(BackendOp::ReadPartial, tpe, id);
    assert forall|f: Option<Fault>| #[trigger] be.decides(list, f) implies f == fault by {
        assert(call_ensures(rule, (&list,), f));
    }
    assert forall|f: Option<Fault>| #[trigger] be.decides(read, f) implies f == fault by {
        assert(call_ensures(rule, (&read,), f));
    }
    assert forall|f: Option<Fault>| #[trigger] be.decides(partial, f) implies f == fault by {
        assert(call_ensures(rule, (&partial,), f));
    }
    assert(be.lists(tpe, backend::listed(files)));
    assert(be.reads_full(tpe, id, backend::seen(full)));
    assert(be.reads_partial(tpe, id, cacheable, offset, length, backend::seen(part)));
}

} // verus!
