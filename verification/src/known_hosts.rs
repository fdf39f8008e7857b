//! The keys of servers that the user trusts.

#![verifier::loop_isolation(false)]

use crate::error::{self, AppError, ErrorView};
use crate::models::{
    Duplicate, HostKeyAction, HostKeyInspection, HostKeyInspectionView, HostKeyStatus,
    duplicate_list,
};
use crate::outside::{self, key_algorithm, key_fingerprint, key_openssh, now};
use crate::text::same;
use vstd::prelude::*;

verus! {

/// The key that a server showed.
#[derive(Debug)]
pub struct HostKeyIdentity {
    pub algorithm: String,
    pub fingerprint_sha256: String,
    pub public_key: String,
}

/// What a [`HostKeyIdentity`] says.
#[verifier::ext_equal]
pub struct HostKeyIdentityView {
    pub algorithm: Seq<char>,
    pub fingerprint_sha256: Seq<char>,
    pub public_key: Seq<char>,
}

impl View for HostKeyIdentity {
    type V = HostKeyIdentityView;

    open spec fn view(&self) -> HostKeyIdentityView {
        HostKeyIdentityView {
            algorithm: self.algorithm@,
            fingerprint_sha256: self.fingerprint_sha256@,
            public_key: self.public_key@,
        }
    }
}

impl DeepView for HostKeyIdentity {
    type V = HostKeyIdentityView;

    open spec fn deep_view(&self) -> HostKeyIdentityView {
        self@
    }
}

impl Duplicate for HostKeyIdentity {
    fn duplicate(&self) -> (r: Self) {
        HostKeyIdentity {
            algorithm: self.algorithm.clone(),
            fingerprint_sha256: self.fingerprint_sha256.clone(),
            public_key: self.public_key.clone(),
        }
    }
}

impl Clone for HostKeyIdentity {
    fn clone(&self) -> (r: Self)
        ensures
            r@ == self@,
    {
        self.duplicate()
    }
}

/// A server and the key that the user trusts there.
#[derive(Debug)]
pub struct HostKeyRecord {
    pub host: String,
    pub port: u16,
    pub algorithm: String,
    pub fingerprint_sha256: String,
    pub public_key: String,
    pub trusted_at: String,
}

/// What a [`HostKeyRecord`] says.
#[verifier::ext_equal]
pub struct HostKeyRecordView {
    pub host: Seq<char>,
    pub port: u16,
    pub algorithm: Seq<char>,
    pub fingerprint_sha256: Seq<char>,
    pub public_key: Seq<char>,
    pub trusted_at: Seq<char>,
}

impl View for HostKeyRecord {
    type V = HostKeyRecordView;

    open spec fn view(&self) -> HostKeyRecordView {
        HostKeyRecordView {
            host: self.host@,
            port: self.port,
            algorithm: self.algorithm@,
            fingerprint_sha256: self.fingerprint_sha256@,
            public_key: self.public_key@,
            trusted_at: self.trusted_at@,
        }
    }
}

impl DeepView for HostKeyRecord {
    type V = HostKeyRecordView;

    open spec fn deep_view(&self) -> HostKeyRecordView {
        self@
    }
}

impl Duplicate for HostKeyRecord {
    fn duplicate(&self) -> (r: Self) {
        HostKeyRecord {
            host: self.host.clone(),
            port: self.port,
            algorithm: self.algorithm.clone(),
            fingerprint_sha256: self.fingerprint_sha256.clone(),
            public_key: self.public_key.clone(),
            trusted_at: self.trusted_at.clone(),
        }
    }
}

impl Clone for HostKeyRecord {
    fn clone(&self) -> (r: Self)
        ensures
            r@ == self@,
    {
        self.duplicate()
    }
}

/// What a key in its wire form stands for, given what it reads as.
pub open spec fn identity_from(
    algorithm: Option<Seq<char>>,
    fingerprint: Option<Seq<char>>,
    openssh: Result<Seq<char>, Seq<char>>,
) -> Result<HostKeyIdentityView, Seq<char>> {
    match (algorithm, fingerprint, openssh) {
        (Some(algorithm), Some(fingerprint_sha256), Ok(public_key)) => Ok(
            HostKeyIdentityView { algorithm, fingerprint_sha256, public_key },
        ),
        (_, _, Err(reason)) => Err(reason),
        _ => Err("unreadable key"@),
    }
}

impl HostKeyIdentity {
    /// The identity made of what a key reads as.
    pub fn from_parts(
        algorithm: Option<String>,
        fingerprint: Option<String>,
        openssh: Result<String, String>,
    ) -> (r: Result<Self, String>)
        ensures
            match identity_from(
                algorithm.deep_view(),
                fingerprint.deep_view(),
                match openssh {
                    Ok(text) => Ok(text@),
                    Err(reason) => Err(reason@),
                },
            ) {
                Ok(identity) => r matches Ok(found) && found@ == identity,
                Err(reason) => r matches Err(found) && found@ == reason,
            },
    {
        match openssh {
            Err(reason) => Err(reason),
            Ok(public_key) => match algorithm {
                None => Err("unreadable key".to_owned()),
                Some(algorithm) => match fingerprint {
                    None => Err("unreadable key".to_owned()),
                    Some(fingerprint_sha256) => Ok(
                        HostKeyIdentity { algorithm, fingerprint_sha256, public_key },
                    ),
                },
            },
        }
    }

    /// The identity of a public key in its wire form, or why it cannot be read.
    pub fn from_public_key(key: &Vec<u8>) -> (r: Result<Self, String>)
        ensures
            match identity_from(
                outside::key_algorithm_of(key@),
                outside::key_fingerprint_of(key@),
                outside::key_openssh_of(key@),
            ) {
                Ok(identity) => r matches Ok(found) && found@ == identity,
                Err(reason) => r matches Err(found) && found@ == reason,
            },
    {
        HostKeyIdentity::from_parts(key_algorithm(key), key_fingerprint(key), key_openssh(key))
    }
}

/// Whether a record belongs to this server.
pub open spec fn record_is_for(record: HostKeyRecordView, host: Seq<char>, port: u16) -> bool {
    record.host == host && record.port == port
}

/// The first record for this server.
pub open spec fn record_for(
    records: Seq<HostKeyRecordView>,
    host: Seq<char>,
    port: u16,
) -> Option<HostKeyRecordView>
    decreases records.len(),
{
    if records.len() == 0 {
        None
    } else if record_is_for(records[0], host, port) {
        Some(records[0])
    } else {
        record_for(records.drop_first(), host, port)
    }
}

/// The records for other servers.
pub open spec fn other_records(
    records: Seq<HostKeyRecordView>,
    host: Seq<char>,
    port: u16,
) -> Seq<HostKeyRecordView>
    decreases records.len(),
{
    if records.len() == 0 {
        Seq::empty()
    } else if record_is_for(records[0], host, port) {
        other_records(records.drop_first(), host, port)
    } else {
        seq![records[0]] + other_records(records.drop_first(), host, port)
    }
}

/// What is known of the key that a server showed.
pub open spec fn inspected(
    records: Seq<HostKeyRecordView>,
    host: Seq<char>,
    port: u16,
    identity: HostKeyIdentityView,
) -> HostKeyInspectionView {
    let known = record_for(records, host, port);
    HostKeyInspectionView {
        host,
        port,
        algorithm: identity.algorithm,
        fingerprint_sha256: identity.fingerprint_sha256,
        status: match known {
            None => HostKeyStatus::Unknown,
            Some(record) => if record.fingerprint_sha256 == identity.fingerprint_sha256 {
                HostKeyStatus::Trusted
            } else {
                HostKeyStatus::Changed
            },
        },
        previous_fingerprint_sha256: match known {
            Some(record) => if record.fingerprint_sha256 == identity.fingerprint_sha256 {
                None
            } else {
                Some(record.fingerprint_sha256)
            },
            None => None,
        },
    }
}

/// Whether a decision fits what is known of the key.
pub open spec fn decision_fits(status: HostKeyStatus, action: HostKeyAction) -> bool {
    match status {
        HostKeyStatus::Trusted => action == HostKeyAction::UseTrusted,
        HostKeyStatus::Unknown => action == HostKeyAction::TrustNew,
        HostKeyStatus::Changed => action == HostKeyAction::ReplaceChanged,
    }
}

/// The error for a decision that does not fit.
pub open spec fn stale_decision_error() -> ErrorView {
    error::ssh_error(
        "HOST-KEY-DECISION-INVALID"@,
        "服务器身份确认已过期，请重新检查指纹"@,
        "host key state no longer matches the requested approval action"@,
        true,
    )
}

/// The record of a key that is trusted from now on.
pub open spec fn trusted_record(
    host: Seq<char>,
    port: u16,
    identity: HostKeyIdentityView,
    now: Seq<char>,
) -> HostKeyRecordView {
    HostKeyRecordView {
        host,
        port,
        algorithm: identity.algorithm,
        fingerprint_sha256: identity.fingerprint_sha256,
        public_key: identity.public_key,
        trusted_at: now,
    }
}

/// The records after the user decided on a key.
pub open spec fn approved(
    records: Seq<HostKeyRecordView>,
    host: Seq<char>,
    port: u16,
    identity: HostKeyIdentityView,
    action: HostKeyAction,
    now: Seq<char>,
) -> Result<(Seq<HostKeyRecordView>, ()), ErrorView> {
    if !decision_fits(inspected(records, host, port, identity).status, action) {
        Err(stale_decision_error())
    } else if action == HostKeyAction::UseTrusted {
        Ok((records, ()))
    } else {
        Ok(
            (
                other_records(records, host, port).push(
                    trusted_record(host, port, identity, now),
                ),
                (),
            ),
        )
    }
}

/// The keys that the user trusts.
pub struct KnownHostsStore {
    records: Vec<HostKeyRecord>,
}

impl View for KnownHostsStore {
    type V = Seq<HostKeyRecordView>;

    closed spec fn view(&self) -> Seq<HostKeyRecordView> {
        self.records.deep_view()
    }
}

impl KnownHostsStore {
    /// A store that holds these records.
    pub fn new(records: Vec<HostKeyRecord>) -> (r: Self)
        ensures
            r@ == records.deep_view(),
    {
        KnownHostsStore { records }
    }

    /// The records.
    pub fn list(&self) -> (r: Vec<HostKeyRecord>)
        ensures
            r.deep_view() == self@,
    {
        duplicate_list(&self.records)
    }

    /// Takes the records for a server out.
    pub fn delete(&mut self, host: &str, port: u16)
        ensures
            final(self)@ == other_records(old(self)@, host@, port),
    {
        let ghost view = self@;
        let mut kept: Vec<HostKeyRecord> = Vec::new();
        let mut i: usize = 0;
        assert(view.skip(0) =~= view);
        assert(kept.deep_view() =~= Seq::empty());
        while i < self.records.len()
            invariant
                i <= view.len(),
                self@ == view,
                other_records(view, host@, port) == kept.deep_view() + other_records(
                    view.skip(i as int),
                    host@,
                    port,
                ),
            decreases view.len() - i,
        {
            let ghost done = kept.deep_view();
            proof {
                assert(view.skip(i as int)[0] == self.records@[i as int]@);
                assert(view.skip(i as int).drop_first() =~= view.skip(i + 1));
            }
            if !(same(self.records[i].host.as_str(), host) && self.records[i].port == port) {
                let item = self.records[i].duplicate();
                let ghost one = item@;
                kept.push(item);
                assert(kept.deep_view() =~= done.push(one));
                assert(done + (seq![one] + other_records(view.skip(i + 1), host@, port))
                    =~= done.push(one) + other_records(view.skip(i + 1), host@, port));
            }
            i = i + 1;
        }
        assert(view.skip(i as int) =~= Seq::empty());
        assert(kept.deep_view() + Seq::<HostKeyRecordView>::empty() =~= kept.deep_view());
        self.records = kept;
    }

    /// Forgets every key.
    pub fn clear(&mut self)
        ensures
            final(self)@ == Seq::<HostKeyRecordView>::empty(),
    {
        self.records.clear();
        assert(self@ =~= Seq::empty());
    }

    /// The place of the first record for a server.
    fn find(&self, host: &str, port: u16) -> (r: Option<usize>)
        ensures
            match r {
                Some(i) => i < self.records@.len() && record_for(self@, host@, port) == Some(
                    self@[i as int],
                ),
                None => record_for(self@, host@, port) is None,
            },
    {
        let ghost view = self@;
        let mut i: usize = 0;
        assert(view.skip(0) =~= view);
        while i < self.records.len()
            invariant
                i <= view.len(),
                record_for(view, host@, port) == record_for(view.skip(i as int), host@, port),
            decreases view.len() - i,
        {
            proof {
                assert(view.skip(i as int)[0] == self.records@[i as int]@);
                assert(view.skip(i as int).drop_first() =~= view.skip(i + 1));
            }
            if same(self.records[i].host.as_str(), host) && self.records[i].port == port {
                return Some(i);
            }
            i = i + 1;
        }
        assert(view.skip(i as int) =~= Seq::empty());
        None
    }

    /// Compares the key that a server showed with the one that is trusted.
    pub fn inspect(&self, host: &str, port: u16, identity: &HostKeyIdentity) -> (r:
        HostKeyInspection)
        ensures
            r@ == inspected(self@, host@, port, identity@),
    {
        let (status, previous) = match self.find(host, port) {
            None => (HostKeyStatus::Unknown, None),
            Some(i) => {
                let record = &self.records[i];
                if same(
                    record.fingerprint_sha256.as_str(),
                    identity.fingerprint_sha256.as_str(),
                ) {
                    (HostKeyStatus::Trusted, None)
                } else {
                    (HostKeyStatus::Changed, Some(record.fingerprint_sha256.clone()))
                }
            },
        };
        HostKeyInspection {
            host: host.to_owned(),
            port,
            algorithm: identity.algorithm.clone(),
            fingerprint_sha256: identity.fingerprint_sha256.clone(),
            status,
            previous_fingerprint_sha256: previous,
        }
    }

    /// Carries out the user's decision on a key.
    pub fn approve_at(
        &mut self,
        host: &str,
        port: u16,
        identity: &HostKeyIdentity,
        action: HostKeyAction,
        now: String,
    ) -> (r: Result<(), AppError>)
        ensures
            error::changes_as(
                old(self)@,
                final(self)@,
                r,
                approved(old(self)@, host@, port, identity@, action, now@),
            ),
    {
        let inspection = self.inspect(host, port, identity);
        let fits = match inspection.status {
            HostKeyStatus::Trusted => action == HostKeyAction::UseTrusted,
            HostKeyStatus::Unknown => action == HostKeyAction::TrustNew,
            HostKeyStatus::Changed => action == HostKeyAction::ReplaceChanged,
        };
        if !fits {
            return Err(
                AppError::ssh(
                    "HOST-KEY-DECISION-INVALID",
                    "服务器身份确认已过期，请重新检查指纹",
                    "host key state no longer matches the requested approval action",
                    true,
                ),
            );
        }
        if action == HostKeyAction::UseTrusted {
            return Ok(());
        }
        self.delete(host, port);
        let ghost kept = self@;
        let record = HostKeyRecord {
            host: host.to_owned(),
            port,
            algorithm: identity.algorithm.clone(),
            fingerprint_sha256: identity.fingerprint_sha256.clone(),
            public_key: identity.public_key.clone(),
            trusted_at: now,
        };
        let ghost one = record@;
        self.records.push(record);
        assert(self@ =~= kept.push(one));
        Ok(())
    }

    /// Carries out the user's decision on a key.
    pub fn approve(
        &mut self,
        host: &str,
        port: u16,
        identity: &HostKeyIdentity,
        action: HostKeyAction,
    ) -> (r: Result<(), AppError>)
        ensures
            exists|now: Seq<char>| #[trigger]
                error::changes_as(
                    old(self)@,
                    final(self)@,
                    r,
                    approved(old(self)@, host@, port, identity@, action, now),
                ),
    {
        let time = now();
        self.approve_at(host, port, identity, action, time)
    }
}

/// The records for other servers do not hold one for this server, and keep those
/// of every other.
proof fn lemma_other_records(
    records: Seq<HostKeyRecordView>,
    host: Seq<char>,
    port: u16,
    other_host: Seq<char>,
    other_port: u16,
)
    ensures
        record_for(other_records(records, host, port), host, port) is None,
        (host != other_host || port != other_port) ==> record_for(
            other_records(records, host, port),
            other_host,
            other_port,
        ) == record_for(records, other_host, other_port),
    decreases records.len(),
{
    if records.len() > 0 {
        let rest = records.drop_first();
        lemma_other_records(rest, host, port, other_host, other_port);
        if !record_is_for(records[0], host, port) {
            let kept = other_records(records, host, port);
            assert(kept.drop_first() =~= other_records(rest, host, port));
            assert(kept[0] == records[0]);
        }
    }
}

/// Adding a record at the end is seen where there was none before.
proof fn lemma_record_pushed(
    records: Seq<HostKeyRecordView>,
    record: HostKeyRecordView,
    host: Seq<char>,
    port: u16,
)
    ensures
        record_for(records.push(record), host, port) == (match record_for(records, host, port) {
            Some(found) => Some(found),
            None => if record_is_for(record, host, port) {
                Some(record)
            } else {
                None
            },
        }),
    decreases records.len(),
{
    let longer = records.push(record);
    reveal_with_fuel(record_for, 2);
    if records.len() > 0 {
        assert(longer[0] == records[0]);
        assert(longer.drop_first() =~= records.drop_first().push(record));
        lemma_record_pushed(records.drop_first(), record, host, port);
    } else {
        assert(longer.drop_first() =~= Seq::empty());
    }
}

/// A key that the user decided to trust is trusted from then on, and what is
/// known of other servers stays as it was.
pub proof fn approved_key_is_trusted(
    records: Seq<HostKeyRecordView>,
    host: Seq<char>,
    port: u16,
    identity: HostKeyIdentityView,
    action: HostKeyAction,
    now: Seq<char>,
    other_host: Seq<char>,
    other_port: u16,
)
    ensures
        approved(records, host, port, identity, action, now) matches Ok((after, _)) ==> {
            &&& inspected(after, host, port, identity).status == HostKeyStatus::Trusted
            &&& (host != other_host || port != other_port) ==> record_for(
                after,
                other_host,
                other_port,
            ) == record_for(records, other_host, other_port)
        },
{
    let kept = other_records(records, host, port);
    let record = trusted_record(host, port, identity, now);
    lemma_other_records(records, host, port, other_host, other_port);
    lemma_record_pushed(kept, record, host, port);
    lemma_record_pushed(kept, record, other_host, other_port);
}

/// A changed key is accepted only where the user decided to replace the old one,
/// and an unknown key only where the user decided to trust a new one.
pub proof fn changed_key_needs_replacing(
    records: Seq<HostKeyRecordView>,
    host: Seq<char>,
    port: u16,
    identity: HostKeyIdentityView,
    action: HostKeyAction,
    now: Seq<char>,
)
    ensures
        approved(records, host, port, identity, action, now) is Ok ==> {
            let status = inspected(records, host, port, identity).status;
            &&& status == HostKeyStatus::Changed ==> action == HostKeyAction::ReplaceChanged
            &&& status == HostKeyStatus::Unknown ==> action == HostKeyAction::TrustNew
        },
{
}

/// A server whose records were deleted is unknown.
pub proof fn deleted_key_is_unknown(
    records: Seq<HostKeyRecordView>,
    host: Seq<char>,
    port: u16,
    identity: HostKeyIdentityView,
)
    ensures
        inspected(other_records(records, host, port), host, port, identity).status
            == HostKeyStatus::Unknown,
{
    lemma_other_records(records, host, port, host, port);
}

/// A server is trusted if and only if the key that it shows has the fingerprint of the
/// record for it, changed if and only if there is a record with another, and unknown if and
/// only if there is none. What is shown is the key that it showed, and, where it changed,
/// the fingerprint that was known.
pub proof fn keys_are_compared_with_the_record(
    records: Seq<HostKeyRecordView>,
    host: Seq<char>,
    port: u16,
    identity: HostKeyIdentityView,
)
    ensures
        ({
            let shown = inspected(records, host, port, identity);
            &&& shown.host == host
            &&& shown.port == port
            &&& shown.algorithm == identity.algorithm
            &&& shown.fingerprint_sha256 == identity.fingerprint_sha256
            &&& match record_for(records, host, port) {
                None => shown.status == HostKeyStatus::Unknown
                    && shown.previous_fingerprint_sha256 is None,
                Some(record) => if record.fingerprint_sha256 == identity.fingerprint_sha256 {
                    shown.status == HostKeyStatus::Trusted && shown.previous_fingerprint_sha256
                        is None
                } else {
                    shown.status == HostKeyStatus::Changed && shown.previous_fingerprint_sha256
                        == Some(record.fingerprint_sha256)
                },
            }
        }),
{
}

/// The record for a server is one of the records, for its host and its port, and there is
/// none only where no record is for them.
pub proof fn records_are_found_by_address(
    records: Seq<HostKeyRecordView>,
    host: Seq<char>,
    port: u16,
)
    ensures
        match record_for(records, host, port) {
            Some(record) => record.host == host && record.port == port && records.contains(record),
            None => forall|i: int|
                0 <= i < records.len() ==> (#[trigger] records[i]).host != host || records[i].port
                    != port,
        },
    decreases records.len(),
{
    if records.len() > 0 && !record_is_for(records[0], host, port) {
        let rest = records.drop_first();
        records_are_found_by_address(rest, host, port);
        match record_for(rest, host, port) {
            Some(record) => {
                let i = choose|i: int| 0 <= i < rest.len() && rest[i] == record;
                assert(records[i + 1] == record);
            },
            None => {
                assert forall|i: int| 0 <= i < records.len() implies (#[trigger] records[i]).host
                    != host || records[i].port != port by {
                    if i > 0 {
                        assert(rest[i - 1] == records[i]);
                    }
                }
            },
        }
    } else if records.len() > 0 {
        assert(records[0] == record_for(records, host, port)->0);
    }
}

/// A decision is followed if and only if it is the one for what is known of the server: a
/// trusted key is used, an unknown one newly trusted, a changed one replaced. The record
/// then holds the key that the server showed.
pub proof fn decisions_are_followed(
    records: Seq<HostKeyRecordView>,
    host: Seq<char>,
    port: u16,
    identity: HostKeyIdentityView,
    action: HostKeyAction,
    now: Seq<char>,
)
    ensures
        ({
            let status = inspected(records, host, port, identity).status;
            match approved(records, host, port, identity, action, now) {
                Ok((after, _)) => {
                    &&& (status == HostKeyStatus::Trusted && action == HostKeyAction::UseTrusted)
                        || (status == HostKeyStatus::Unknown && action == HostKeyAction::TrustNew)
                        || (status == HostKeyStatus::Changed && action
                        == HostKeyAction::ReplaceChanged)
                    &&& action == HostKeyAction::UseTrusted ==> after == records
                    &&& action != HostKeyAction::UseTrusted ==> (record_for(
                        after,
                        host,
                        port,
                    ) matches Some(record) && record.fingerprint_sha256
                        == identity.fingerprint_sha256 && record.algorithm == identity.algorithm
                        && record.public_key == identity.public_key && record.trusted_at == now)
                },
                Err(error) => {
                    &&& error.code == "HOST-KEY-DECISION-INVALID"@
                    &&& error.retryable
                    &&& status == HostKeyStatus::Trusted ==> action != HostKeyAction::UseTrusted
                    &&& status == HostKeyStatus::Unknown ==> action != HostKeyAction::TrustNew
                    &&& status == HostKeyStatus::Changed ==> action
                        != HostKeyAction::ReplaceChanged
                },
            }
        }),
{
    let kept = other_records(records, host, port);
    lemma_other_records(records, host, port, host, port);
    lemma_record_pushed(kept, trusted_record(host, port, identity, now), host, port);
}

/// A key is known by its algorithm, its fingerprint and its text where all three could be
/// read, and by nothing else.
pub proof fn identities_are_those_of_the_key(
    algorithm: Option<Seq<char>>,
    fingerprint: Option<Seq<char>>,
    openssh: Result<Seq<char>, Seq<char>>,
)
    ensures
        match identity_from(algorithm, fingerprint, openssh) {
            Ok(identity) => algorithm == Some(identity.algorithm) && fingerprint == Some(
                identity.fingerprint_sha256,
            ) && openssh == Ok::<Seq<char>, Seq<char>>(identity.public_key),
            Err(reason) => algorithm is None || fingerprint is None || openssh is Err,
        },
        identity_from(algorithm, fingerprint, openssh) is Ok <==> algorithm is Some && fingerprint
            is Some && openssh is Ok,
{
}

/// Deleting the records of a server leaves those of every other.
pub proof fn other_servers_stay_known(
    records: Seq<HostKeyRecordView>,
    host: Seq<char>,
    port: u16,
    other_host: Seq<char>,
    other_port: u16,
)
    requires
        host != other_host || port != other_port,
    ensures
        record_for(other_records(records, host, port), other_host, other_port) == record_for(
            records,
            other_host,
            other_port,
        ),
{
    lemma_other_records(records, host, port, other_host, other_port);
}

} // verus!
