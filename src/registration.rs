//! Registration: the workflow that admits the authors of new Strands.
//! A record starts Pending and moves once, to Approved or Rejected.
use vstd::prelude::*;
use vstd::string::StringExecFns;
use crate::block::{copy_bytes, opt_view, Strand};
use crate::errors::ApiError;
use crate::block::StrandView;
use crate::store::{after_strand, strand_stored, D1Store, StoreView};

verus! {

#[derive(Clone, Copy, Debug, PartialEq, Eq, Structural)]
pub enum RegistrationStatus {
    Pending,
    Approved,
    Rejected,
}

/// A request to register a Strand.
pub struct RegistrationRequest {
    pub email: String,
    pub strand: Strand,
}

/// One row of the registrations table.
pub struct RegistrationRecord {
    /// The receipt handed to the registrant.
    pub uuid: String,
    pub email: String,
    pub strand_cid: String,
    /// The serialized Strand, kept so that approval can store it.
    pub strand: Vec<u8>,
    pub status: RegistrationStatus,
}

pub ghost struct RecordView {
    pub uuid: Seq<char>,
    pub email: Seq<char>,
    pub strand_cid: Seq<char>,
    pub strand: Seq<u8>,
    pub status: RegistrationStatus,
}

impl View for RegistrationRecord {
    type V = RecordView;

    open spec fn view(&self) -> RecordView {
        RecordView {
            uuid: self.uuid@,
            email: self.email@,
            strand_cid: self.strand_cid@,
            strand: self.strand@,
            status: self.status,
        }
    }
}

pub open spec fn is_lower_hex(c: char) -> bool {
    ('0' <= c <= '9') || ('a' <= c <= 'f')
}

/// Text of a version 4 (random) UUID in hyphenated lower-case form: 32 hex
/// digits in groups of 8-4-4-4-12, version digit 4, variant digit 8, 9, a
/// or b.
pub open spec fn is_v4_text(s: Seq<char>) -> bool {
    &&& s.len() == 36
    &&& forall|i: int|
        0 <= i < 36 ==> if i == 8 || i == 13 || i == 18 || i == 23 {
            #[trigger] s[i] == '-'
        } else {
            is_lower_hex(s[i])
        }
    &&& s[14] == '4'
    &&& (s[19] == '8' || s[19] == '9' || s[19] == 'a' || s[19] == 'b')
}

/// Relies on `uuid::Uuid::new_v4` and its `Display`: a fresh random
/// receipt, in hyphenated lower-case form with the version 4 and RFC 4122
/// variant bits set.
#[verifier::external_body]
fn new_receipt() -> (r: String)
    ensures
        is_v4_text(r@),
{
    uuid::Uuid::new_v4().to_string()
}

/// The canonical (lower-case, hyphenated) text of the UUID that `s` spells,
/// in any form that the `uuid` crate reads; `None` where `s` is no UUID.
pub uninterp spec fn canonical_receipt_of(s: Seq<char>) -> Option<Seq<char>>;

/// Relies on `uuid::Uuid::try_parse` and its `Display`: the canonical text of
/// the UUID that `s` spells, 36 characters long.
#[verifier::external_body]
fn canonical_receipt(s: &str) -> (r: Option<String>)
    ensures
        opt_view(r) == canonical_receipt_of(s@),
        r matches Some(c) ==> c@.len() == 36,
{
    uuid::Uuid::try_parse(s).ok().map(|u| u.to_string())
}

impl RegistrationRecord {
    /// A Pending record for the Strand, under a fresh receipt.
    pub fn new(email: String, strand: &Strand) -> (r: RegistrationRecord)
        ensures
            r@.email == email@,
            r@.strand_cid == strand@.cid,
            r@.strand == strand@.data,
            r@.status == RegistrationStatus::Pending,
            is_v4_text(r@.uuid),
    {
        RegistrationRecord {
            uuid: new_receipt(),
            email,
            strand_cid: strand.cid.clone(),
            strand: copy_bytes(&strand.data),
            status: RegistrationStatus::Pending,
        }
    }

    /// An Approved record for the Strand, under a fresh receipt.
    pub fn new_preapproved(email: String, strand_cid: String, strand: &Strand) -> (r: RegistrationRecord)
        ensures
            r@.email == email@,
            r@.strand_cid == strand_cid@,
            r@.strand == strand@.data,
            r@.status == RegistrationStatus::Approved,
            is_v4_text(r@.uuid),
    {
        RegistrationRecord {
            uuid: new_receipt(),
            email,
            strand_cid,
            strand: copy_bytes(&strand.data),
            status: RegistrationStatus::Approved,
        }
    }

    /// A copy of the record, equal to it in every field.
    pub fn duplicate(&self) -> (r: RegistrationRecord)
        ensures
            r@ == self@,
    {
        RegistrationRecord {
            uuid: self.uuid.clone(),
            email: self.email.clone(),
            strand_cid: self.strand_cid.clone(),
            strand: copy_bytes(&self.strand),
            status: self.status,
        }
    }
}

pub open spec fn receipt_taken(rs: Seq<RecordView>, uuid: Seq<char>) -> bool {
    exists|i: int| 0 <= i < rs.len() && (#[trigger] rs[i]).uuid == uuid
}

/// `rs` holds an Approved record for the Strand.
pub open spec fn approved_for(rs: Seq<RecordView>, strand_cid: Seq<char>) -> bool {
    exists|i: int|
        0 <= i < rs.len() && (#[trigger] rs[i]).strand_cid == strand_cid && rs[i].status
            == RegistrationStatus::Approved
}

/// The first Approved record for the Strand.
pub open spec fn first_approved(rs: Seq<RecordView>, strand_cid: Seq<char>, i: int) -> bool {
    &&& 0 <= i < rs.len()
    &&& rs[i].strand_cid == strand_cid
    &&& rs[i].status == RegistrationStatus::Approved
    &&& forall|j: int|
        0 <= j < i ==> !((#[trigger] rs[j]).strand_cid == strand_cid && rs[j].status
            == RegistrationStatus::Approved)
}

/// Every receipt names one record.
pub open spec fn registrations_wf(rs: Seq<RecordView>) -> bool {
    forall|i: int, j: int|
        0 <= i < rs.len() && 0 <= j < rs.len() && i != j ==> (#[trigger] rs[i]).uuid != (#[trigger] rs[j]).uuid
}

/// The registrations table.
pub struct Registrations {
    records: Vec<RegistrationRecord>,
}

impl View for Registrations {
    type V = Seq<RecordView>;

    closed spec fn view(&self) -> Seq<RecordView> {
        self.records@.map_values(|r: RegistrationRecord| r@)
    }
}

impl Registrations {
    pub open spec fn wf(&self) -> bool {
        registrations_wf(self@)
    }

    pub fn new() -> (r: Registrations)
        ensures
            r@.len() == 0,
            r.wf(),
    {
        let r = Registrations { records: Vec::new() };
        assert(r@ =~= Seq::<RecordView>::empty());
        r
    }

    fn find(&self, uuid: &String) -> (r: Option<usize>)
        ensures
            match r {
                Some(i) => i < self@.len() && self@[i as int].uuid == uuid@,
                None => !receipt_taken(self@, uuid@),
            },
    {
        let mut i: usize = 0;
        while i < self.records.len()
            invariant
                i <= self@.len(),
                forall|j: int| 0 <= j < i ==> (#[trigger] self@[j]).uuid != uuid@,
            decreases self@.len() - i,
        {
            if self.records[i].uuid == *uuid {
                return Some(i);
            }
            i += 1;
        }
        None
    }

    /// Stores a record; `ServerError` where its receipt is taken, leaving
    /// the table as it is.
    pub fn save(&mut self, record: RegistrationRecord) -> (r: Result<(), ApiError>)
        requires
            old(self).wf(),
        ensures
            final(self).wf(),
            r is Ok <==> !receipt_taken(old(self)@, record@.uuid),
            r is Ok ==> final(self)@ == old(self)@.push(record@),
            r matches Err(e) ==> e is ServerError && final(self)@ == old(self)@,
    {
        if self.find(&record.uuid).is_some() {
            return Err(ApiError::ServerError(String::from_str("Receipt already in use")));
        }
        let ghost v0 = self@;
        self.records.push(record);
        assert(self@ =~= v0.push(record@));
        Ok(())
    }

    /// The record of a receipt.
    pub fn fetch(&self, uuid: &String) -> (r: Option<RegistrationRecord>)
        ensures
            r is Some <==> receipt_taken(self@, uuid@),
            r matches Some(rec) ==> exists|i: int| 0 <= i < self@.len() && (#[trigger] self@[i]) == rec@ && rec@.uuid == uuid@,
    {
        match self.find(uuid) {
            Some(i) => {
                let rec = self.records[i].duplicate();
                assert(self@[i as int] == rec@);
                Some(rec)
            },
            None => None,
        }
    }

    /// Every record, in the order of the table.
    pub fn get_all(&self) -> (r: Vec<RegistrationRecord>)
        ensures
            r@.len() == self@.len(),
            forall|i: int| 0 <= i < r@.len() ==> (#[trigger] r@[i])@ == self@[i],
    {
        let mut r: Vec<RegistrationRecord> = Vec::new();
        let mut i: usize = 0;
        while i < self.records.len()
            invariant
                i <= self@.len(),
                r@.len() == i,
                forall|j: int| 0 <= j < i ==> (#[trigger] r@[j])@ == self@[j],
            decreases self@.len() - i,
        {
            let rec = self.records[i].duplicate();
            assert(rec@ == self@[i as int]);
            r.push(rec);
            i += 1;
        }
        r
    }

    /// The first Approved record for the Strand, if any.
    pub fn check_approved(&self, strand_cid: &String) -> (r: Option<RegistrationRecord>)
        ensures
            r is Some <==> approved_for(self@, strand_cid@),
            r matches Some(rec) ==> exists|i: int| first_approved(self@, strand_cid@, i) && self@[i] == rec@,
    {
        let mut i: usize = 0;
        while i < self.records.len()
            invariant
                i <= self@.len(),
                forall|j: int|
                    0 <= j < i ==> !((#[trigger] self@[j]).strand_cid == strand_cid@ && self@[j].status
                        == RegistrationStatus::Approved),
            decreases self@.len() - i,
        {
            assert(self@[i as int] == self.records@[i as int]@);
            if self.records[i].status == RegistrationStatus::Approved && self.records[i].strand_cid == *strand_cid {
                let rec = self.records[i].duplicate();
                assert(first_approved(self@, strand_cid@, i as int));
                return Some(rec);
            }
            i += 1;
        }
        None
    }

    /// Moves a Pending record to Approved or Rejected. Fails with
    /// `NotFound` where no record has the receipt, and with `BadRequestData`
    /// where the record is not Pending or the new status is Pending; the
    /// table is then unchanged.
    pub fn set_status(&mut self, uuid: &String, status: RegistrationStatus) -> (r: Result<(), ApiError>)
        requires
            old(self).wf(),
        ensures
            final(self).wf(),
            r is Ok <==> exists|i: int|
                0 <= i < old(self)@.len() && (#[trigger] old(self)@[i]).uuid == uuid@ && old(self)@[i].status
                    == RegistrationStatus::Pending && status != RegistrationStatus::Pending,
            r is Ok ==> final(self)@.len() == old(self)@.len() && forall|i: int|
                0 <= i < old(self)@.len() ==> (#[trigger] final(self)@[i]) == if old(self)@[i].uuid == uuid@ {
                    RecordView { status, ..old(self)@[i] }
                } else {
                    old(self)@[i]
                },
            r matches Err(e) ==> final(self)@ == old(self)@ && if receipt_taken(old(self)@, uuid@) {
                e is BadRequestData
            } else {
                e is NotFound
            },
    {
        let ghost v0 = self@;
        match self.find(uuid) {
            Some(i) => {
                assert(v0[i as int] == self.records@[i as int]@);
                assert forall|j: int| 0 <= j < v0.len() && (#[trigger] v0[j]).uuid == uuid@ implies j == i by {
                    if j != i {
                        assert(v0[j].uuid != v0[i as int].uuid);
                    }
                }
                if self.records[i].status != RegistrationStatus::Pending || status == RegistrationStatus::Pending {
                    return Err(ApiError::BadRequestData(String::from_str("Registration already decided")));
                }
                let mut rec = self.records[i].duplicate();
                rec.status = status;
                self.records.set(i, rec);
                assert forall|j: int| 0 <= j < v0.len() implies (#[trigger] self@[j]) == if v0[j].uuid == uuid@ {
                    RecordView { status, ..v0[j] }
                } else {
                    v0[j]
                } by {
                    if j == i {
                        assert(self@[j] == rec@);
                    }
                }
                assert forall|a: int, b: int| 0 <= a < self@.len() && 0 <= b < self@.len() && a != b implies (#[trigger] self@[a]).uuid
                    != (#[trigger] self@[b]).uuid by {
                    assert(self@[a].uuid == v0[a].uuid && self@[b].uuid == v0[b].uuid);
                }
                Ok(())
            },
            None => Err(ApiError::NotFound),
        }
    }
}

/// What a submission does, given the receipt `receipt` for a new record.
/// A Strand that is already stored is refused with `Conflict`, both tables
/// unchanged. Where `accept_all` is set, or no Approved record names the
/// Strand, a new record goes in under the receipt (Approved and the Strand
/// stored at once where `accept_all` is set, else Pending), exactly when the
/// receipt is free; otherwise `ServerError` and nothing changes. A Strand with
/// an Approved record is stored and that record returned.
pub open spec fn registers(
    regs0: Seq<RecordView>,
    store0: StoreView,
    email: Seq<char>,
    strand: StrandView,
    accept_all: bool,
    receipt: Seq<char>,
    r: Result<RegistrationRecord, ApiError>,
    regs1: Seq<RecordView>,
    store1: StoreView,
) -> bool {
    if strand_stored(store0.strands, strand.cid) {
        &&& r matches Err(ApiError::Conflict(m)) && m@ == "Strand already registered"@
        &&& regs1 == regs0
        &&& store1 == store0
    } else if accept_all || !approved_for(regs0, strand.cid) {
        &&& r is Ok <==> !receipt_taken(regs0, receipt)
        &&& r matches Err(e) ==> e is ServerError && regs1 == regs0 && store1 == store0
        &&& r matches Ok(rec) ==> {
            &&& rec@ == RecordView {
                uuid: receipt,
                email,
                strand_cid: strand.cid,
                strand: strand.data,
                status: if accept_all {
                    RegistrationStatus::Approved
                } else {
                    RegistrationStatus::Pending
                },
            }
            &&& regs1 == regs0.push(rec@)
            &&& store1 == if accept_all {
                after_strand(store0, strand)
            } else {
                store0
            }
        }
    } else {
        &&& r matches Ok(rec) && exists|i: int| first_approved(regs0, strand.cid, i) && regs0[i] == rec@
        &&& regs1 == regs0
        &&& store1 == after_strand(store0, strand)
    }
}

/// Submits a registration, with `receipt` as the receipt of a new record;
/// what happens is what `registers` says.
pub fn register_with_receipt(
    regs: &mut Registrations,
    store: &mut D1Store,
    request: RegistrationRequest,
    accept_all: bool,
    receipt: String,
) -> (r: Result<RegistrationRecord, ApiError>)
    requires
        old(regs).wf(),
        old(store).wf(),
    ensures
        final(regs).wf(),
        final(store).wf(),
        registers(
            old(regs)@,
            old(store)@,
            request.email@,
            request.strand@,
            accept_all,
            receipt@,
            r,
            final(regs)@,
            final(store)@,
        ),
{
    let RegistrationRequest { email, strand } = request;
    if store.has_strand(&strand.cid) {
        return Err(ApiError::Conflict(String::from_str("Strand already registered")));
    }
    if !accept_all {
        match regs.check_approved(&strand.cid) {
            Some(existing) => {
                store.save_strand(strand);
                return Ok(existing);
            },
            None => {},
        }
    }
    let record = RegistrationRecord {
        uuid: receipt,
        email,
        strand_cid: strand.cid.clone(),
        strand: copy_bytes(&strand.data),
        status: if accept_all {
            RegistrationStatus::Approved
        } else {
            RegistrationStatus::Pending
        },
    };
    let reply = record.duplicate();
    regs.save(record)?;
    if accept_all {
        store.save_strand(strand);
    }
    Ok(reply)
}

/// Submits a registration under a fresh random receipt (see `registers`):
/// a new record's receipt is version 4 UUID text, and a first registration
/// of a Strand that is not stored always succeeds.
pub fn register_strand(
    regs: &mut Registrations,
    store: &mut D1Store,
    request: RegistrationRequest,
    accept_all: bool,
) -> (r: Result<RegistrationRecord, ApiError>)
    requires
        old(regs).wf(),
        old(store).wf(),
    ensures
        final(regs).wf(),
        final(store).wf(),
        exists|receipt: Seq<char>|
            is_v4_text(receipt) && registers(
                old(regs)@,
                old(store)@,
                request.email@,
                request.strand@,
                accept_all,
                receipt,
                r,
                final(regs)@,
                final(store)@,
            ),
        old(regs)@.len() == 0 && !strand_stored(old(store)@.strands, request.strand@.cid) ==> r is Ok,
{
    let receipt = new_receipt();
    let ghost rv = receipt@;
    let r = register_with_receipt(regs, store, request, accept_all, receipt);
    assert(is_v4_text(rv));
    r
}

/// The record of a receipt given as text: `BadRequestData` where the text
/// is no UUID, `NotFound` where no record has that receipt.
pub fn fetch_registration(regs: &Registrations, receipt: &str) -> (r: Result<RegistrationRecord, ApiError>)
    ensures
        match canonical_receipt_of(receipt@) {
            None => r matches Err(e) && e is BadRequestData,
            Some(c) => {
                &&& r is Ok <==> receipt_taken(regs@, c)
                &&& r matches Ok(rec) ==> rec@.uuid == c && exists|i: int| 0 <= i < regs@.len() && (#[trigger] regs@[i]) == rec@
                &&& r matches Err(e) ==> e is NotFound
            },
        },
{
    let uuid = match canonical_receipt(receipt) {
        Some(u) => u,
        None => {
            return Err(ApiError::BadRequestData(String::from_str("Invalid receipt id")));
        },
    };
    match regs.fetch(&uuid) {
        Some(rec) => Ok(rec),
        None => Err(ApiError::NotFound),
    }
}

} // verus!
