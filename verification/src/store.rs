//! The at-rest state of one identity's database: the metadata table, the
//! contact rows, the file and avatar rows, and one message log per contact.
//! Encrypted columns hold sealed bytes; plaintext columns hold raw bytes.

use vstd::prelude::*;
use crate::key_value_table::KeyValueTable;
use crate::util::bytes_eq;
use crate::util::clone_bytes;

verus! {

/// A value of an optional blob column.
pub open spec fn opt_bytes_view(o: Option<Vec<u8>>) -> Option<Seq<u8>> {
    match o {
        Some(v) => Some(v@),
        None => None,
    }
}

/// One row of the contacts table: plaintext uuid and avatar pointer, sealed
/// name, public key, verified flag and seen flag.
pub struct ContactRow {
    pub uuid: Vec<u8>,
    pub name_ct: Vec<u8>,
    pub avatar: Option<Vec<u8>>,
    pub key_ct: Vec<u8>,
    pub verified_ct: Vec<u8>,
    pub seen_ct: Vec<u8>,
}

#[verifier::ext_equal]
pub ghost struct ContactRowV {
    pub uuid: Seq<u8>,
    pub name_ct: Seq<u8>,
    pub avatar: Option<Seq<u8>>,
    pub key_ct: Seq<u8>,
    pub verified_ct: Seq<u8>,
    pub seen_ct: Seq<u8>,
}

impl View for ContactRow {
    type V = ContactRowV;

    open spec fn view(&self) -> ContactRowV {
        ContactRowV {
            uuid: self.uuid@,
            name_ct: self.name_ct@,
            avatar: opt_bytes_view(self.avatar),
            key_ct: self.key_ct@,
            verified_ct: self.verified_ct@,
            seen_ct: self.seen_ct@,
        }
    }
}

/// One row of the files table: plaintext owner pointer, sealed file uuid and
/// sealed contents.
pub struct FileRow {
    pub contact_uuid: Option<Vec<u8>>,
    pub uuid_ct: Vec<u8>,
    pub data_ct: Vec<u8>,
}

#[verifier::ext_equal]
pub ghost struct FileRowV {
    pub contact_uuid: Option<Seq<u8>>,
    pub uuid_ct: Seq<u8>,
    pub data_ct: Seq<u8>,
}

impl View for FileRow {
    type V = FileRowV;

    open spec fn view(&self) -> FileRowV {
        FileRowV {
            contact_uuid: opt_bytes_view(self.contact_uuid),
            uuid_ct: self.uuid_ct@,
            data_ct: self.data_ct@,
        }
    }
}

/// One row of the avatars table: plaintext uuid, sealed picture bytes.
pub struct AvatarRow {
    pub uuid: Vec<u8>,
    pub data_ct: Vec<u8>,
}

#[verifier::ext_equal]
pub ghost struct AvatarRowV {
    pub uuid: Seq<u8>,
    pub data_ct: Seq<u8>,
}

impl View for AvatarRow {
    type V = AvatarRowV;

    open spec fn view(&self) -> AvatarRowV {
        AvatarRowV { uuid: self.uuid@, data_ct: self.data_ct@ }
    }
}

/// One row of a message log: sealed direction flag, sealed big-endian
/// timestamp, sealed payload.
pub struct MsgRow {
    pub outgoing_ct: Vec<u8>,
    pub timestamp_ct: Vec<u8>,
    pub data_ct: Vec<u8>,
}

#[verifier::ext_equal]
pub ghost struct MsgRowV {
    pub outgoing_ct: Seq<u8>,
    pub timestamp_ct: Seq<u8>,
    pub data_ct: Seq<u8>,
}

impl View for MsgRow {
    type V = MsgRowV;

    open spec fn view(&self) -> MsgRowV {
        MsgRowV {
            outgoing_ct: self.outgoing_ct@,
            timestamp_ct: self.timestamp_ct@,
            data_ct: self.data_ct@,
        }
    }
}

/// One contact's message log, named by the contact's uuid.
pub struct Conversation {
    pub contact_uuid: Vec<u8>,
    pub rows: Vec<MsgRow>,
}

#[verifier::ext_equal]
pub ghost struct ConversationV {
    pub contact_uuid: Seq<u8>,
    pub rows: Seq<MsgRowV>,
}

/// The views of a sequence of rows.
pub open spec fn views_of<T: View>(s: Seq<T>) -> Seq<T::V> {
    s.map_values(|t: T| t@)
}

impl View for Conversation {
    type V = ConversationV;

    open spec fn view(&self) -> ConversationV {
        ConversationV { contact_uuid: self.contact_uuid@, rows: views_of(self.rows@) }
    }
}

/// One identity's whole database. A table that was never created is `None`;
/// a dropped table becomes `None` again.
pub struct Store {
    pub main: KeyValueTable,
    pub contacts: Option<Vec<ContactRow>>,
    pub files: Option<Vec<FileRow>>,
    pub avatars: Option<Vec<AvatarRow>>,
    pub conversations: Vec<Conversation>,
}

#[verifier::ext_equal]
pub ghost struct StoreV {
    pub main: Map<Seq<char>, Seq<u8>>,
    pub contacts: Option<Seq<ContactRowV>>,
    pub files: Option<Seq<FileRowV>>,
    pub avatars: Option<Seq<AvatarRowV>>,
    pub conversations: Seq<ConversationV>,
}

pub open spec fn opt_rows_view<T: View>(o: Option<Vec<T>>) -> Option<Seq<T::V>> {
    match o {
        Some(v) => Some(views_of(v@)),
        None => None,
    }
}

impl View for Store {
    type V = StoreV;

    open spec fn view(&self) -> StoreV {
        StoreV {
            main: self.main@,
            contacts: opt_rows_view(self.contacts),
            files: opt_rows_view(self.files),
            avatars: opt_rows_view(self.avatars),
            conversations: views_of(self.conversations@),
        }
    }
}

/// A copy of an optional blob with the same contents.
pub fn clone_opt_bytes(o: &Option<Vec<u8>>) -> (r: Option<Vec<u8>>)
    ensures
        opt_bytes_view(r) == opt_bytes_view(*o),
{
    match o {
        Some(v) => Some(clone_bytes(v)),
        None => None,
    }
}

/// A copy of a contact row with the same contents.
pub fn clone_contact_row(row: &ContactRow) -> (r: ContactRow)
    ensures
        r@ == row@,
{
    ContactRow {
        uuid: clone_bytes(&row.uuid),
        name_ct: clone_bytes(&row.name_ct),
        avatar: clone_opt_bytes(&row.avatar),
        key_ct: clone_bytes(&row.key_ct),
        verified_ct: clone_bytes(&row.verified_ct),
        seen_ct: clone_bytes(&row.seen_ct),
    }
}

/// A copy of a file row with the same contents.
pub fn clone_file_row(row: &FileRow) -> (r: FileRow)
    ensures
        r@ == row@,
{
    FileRow {
        contact_uuid: clone_opt_bytes(&row.contact_uuid),
        uuid_ct: clone_bytes(&row.uuid_ct),
        data_ct: clone_bytes(&row.data_ct),
    }
}

/// A copy of an avatar row with the same contents.
pub fn clone_avatar_row(row: &AvatarRow) -> (r: AvatarRow)
    ensures
        r@ == row@,
{
    AvatarRow { uuid: clone_bytes(&row.uuid), data_ct: clone_bytes(&row.data_ct) }
}

/// The contact rows left after deleting one uuid.
pub open spec fn contacts_without(rows: Seq<ContactRowV>, uuid: Seq<u8>) -> Seq<ContactRowV>
    decreases rows.len(),
{
    if rows.len() == 0 {
        Seq::empty()
    } else {
        let rest = contacts_without(rows.drop_last(), uuid);
        if rows.last().uuid == uuid {
            rest
        } else {
            rest.push(rows.last())
        }
    }
}

/// The file rows left after deleting one owner.
pub open spec fn files_without_owner(rows: Seq<FileRowV>, uuid: Seq<u8>) -> Seq<FileRowV>
    decreases rows.len(),
{
    if rows.len() == 0 {
        Seq::empty()
    } else {
        let rest = files_without_owner(rows.drop_last(), uuid);
        if rows.last().contact_uuid == Some(uuid) {
            rest
        } else {
            rest.push(rows.last())
        }
    }
}

/// The file rows left after deleting the transient ones, which no contact
/// owns.
pub open spec fn files_owned_only(rows: Seq<FileRowV>) -> Seq<FileRowV>
    decreases rows.len(),
{
    if rows.len() == 0 {
        Seq::empty()
    } else {
        let rest = files_owned_only(rows.drop_last());
        if rows.last().contact_uuid is None {
            rest
        } else {
            rest.push(rows.last())
        }
    }
}

/// The avatar rows left after deleting one uuid.
pub open spec fn avatars_without(rows: Seq<AvatarRowV>, uuid: Seq<u8>) -> Seq<AvatarRowV>
    decreases rows.len(),
{
    if rows.len() == 0 {
        Seq::empty()
    } else {
        let rest = avatars_without(rows.drop_last(), uuid);
        if rows.last().uuid == uuid {
            rest
        } else {
            rest.push(rows.last())
        }
    }
}

/// The message logs left after dropping one contact's.
pub open spec fn convs_without(convs: Seq<ConversationV>, uuid: Seq<u8>) -> Seq<ConversationV>
    decreases convs.len(),
{
    if convs.len() == 0 {
        Seq::empty()
    } else {
        let rest = convs_without(convs.drop_last(), uuid);
        if convs.last().contact_uuid == uuid {
            rest
        } else {
            rest.push(convs.last())
        }
    }
}

/// Every log left after dropping one is a log that was there.
pub proof fn lemma_convs_without_membership(convs: Seq<ConversationV>, uuid: Seq<u8>, k: int)
    requires
        0 <= k < convs_without(convs, uuid).len(),
    ensures
        exists|j: int| 0 <= j < convs.len() && convs[j] == convs_without(convs, uuid)[k],
    decreases convs.len(),
{
    if convs.len() > 0 {
        let rest = convs_without(convs.drop_last(), uuid);
        if k < rest.len() {
            lemma_convs_without_membership(convs.drop_last(), uuid, k);
            let j = choose|j: int|
                0 <= j < convs.drop_last().len() && convs.drop_last()[j] == rest[k];
            assert(convs[j] == convs_without(convs, uuid)[k]);
        } else {
            assert(convs[convs.len() - 1] == convs_without(convs, uuid)[k]);
        }
    }
}

/// Dropping one contact's log keeps the remaining logs, in order, and
/// leaves none under the dropped uuid.
pub proof fn lemma_convs_without_distinct(convs: Seq<ConversationV>, uuid: Seq<u8>)
    requires
        convs_distinct(convs),
    ensures
        convs_distinct(convs_without(convs, uuid)),
        forall|k: int|
            0 <= k < convs_without(convs, uuid).len() ==> (#[trigger] convs_without(
                convs,
                uuid,
            )[k]).contact_uuid != uuid,
    decreases convs.len(),
{
    if convs.len() > 0 {
        let dl = convs.drop_last();
        assert(convs_distinct(dl)) by {
            assert forall|a: int, b: int| 0 <= a < b < dl.len() implies dl[a].contact_uuid
                != dl[b].contact_uuid by {
                assert(convs[a].contact_uuid != convs[b].contact_uuid);
            }
        }
        lemma_convs_without_distinct(dl, uuid);
        let rest = convs_without(dl, uuid);
        let whole = convs_without(convs, uuid);
        if convs.last().contact_uuid == uuid {
        } else {
            assert forall|a: int, b: int| 0 <= a < b < whole.len() implies whole[a].contact_uuid
                != whole[b].contact_uuid by {
                if b < rest.len() {
                } else {
                    lemma_convs_without_membership(dl, uuid, a);
                    let j = choose|j: int| 0 <= j < dl.len() && dl[j] == rest[a];
                    assert(convs[j].contact_uuid != convs[convs.len() - 1].contact_uuid);
                }
            }
        }
    }
}

/// The avatar pointer of the first contact row under a uuid, if that row
/// exists and points anywhere.
pub open spec fn first_contact_avatar(rows: Seq<ContactRowV>, uuid: Seq<u8>) -> Option<Seq<u8>>
    decreases rows.len(),
{
    if rows.len() == 0 {
        None
    } else if rows.first().uuid == uuid {
        rows.first().avatar
    } else {
        first_contact_avatar(rows.drop_first(), uuid)
    }
}

/// Whether any contact row points at an avatar uuid.
pub open spec fn contact_refs(rows: Seq<ContactRowV>, uuid: Seq<u8>) -> bool {
    exists|j: int| 0 <= j < rows.len() && rows[j].avatar == Some(uuid)
}

/// The avatar rows some contact still points at, in order.
pub open spec fn avatars_referenced(
    avatars: Seq<AvatarRowV>,
    contacts: Seq<ContactRowV>,
) -> Seq<AvatarRowV>
    decreases avatars.len(),
{
    if avatars.len() == 0 {
        Seq::empty()
    } else {
        let rest = avatars_referenced(avatars.drop_last(), contacts);
        if contact_refs(contacts, avatars.last().uuid) {
            rest.push(avatars.last())
        } else {
            rest
        }
    }
}

/// Dropping a log that is not there changes nothing.
pub proof fn lemma_convs_without_absent(convs: Seq<ConversationV>, uuid: Seq<u8>)
    requires
        forall|j: int| 0 <= j < convs.len() ==> (#[trigger] convs[j]).contact_uuid != uuid,
    ensures
        convs_without(convs, uuid) == convs,
    decreases convs.len(),
{
    if convs.len() > 0 {
        let dl = convs.drop_last();
        assert forall|j: int| 0 <= j < dl.len() implies (#[trigger] dl[j]).contact_uuid
            != uuid by {
            assert(convs[j].contact_uuid != uuid);
        }
        lemma_convs_without_absent(dl, uuid);
        assert(convs_without(convs, uuid) =~= convs);
    } else {
        assert(convs_without(convs, uuid) =~= convs);
    }
}

/// With unique names, dropping one contact's log is removing its one entry.
pub proof fn lemma_convs_without_remove(convs: Seq<ConversationV>, uuid: Seq<u8>, idx: int)
    requires
        convs_distinct(convs),
        0 <= idx < convs.len(),
        convs[idx].contact_uuid == uuid,
    ensures
        convs_without(convs, uuid) == convs.remove(idx),
    decreases convs.len(),
{
    let dl = convs.drop_last();
    assert(convs_distinct(dl)) by {
        assert forall|a: int, b: int| 0 <= a < b < dl.len() implies dl[a].contact_uuid
            != dl[b].contact_uuid by {
            assert(convs[a].contact_uuid != convs[b].contact_uuid);
        }
    }
    if idx == convs.len() - 1 {
        assert forall|j: int| 0 <= j < dl.len() implies (#[trigger] dl[j]).contact_uuid
            != uuid by {
            assert(convs[j].contact_uuid != convs[idx].contact_uuid);
        }
        lemma_convs_without_absent(dl, uuid);
        assert(convs_without(convs, uuid) =~= convs.remove(idx));
    } else {
        assert(dl[idx] == convs[idx]);
        lemma_convs_without_remove(dl, uuid, idx);
        assert(convs.last().contact_uuid != uuid) by {
            assert(convs[idx].contact_uuid != convs[convs.len() - 1].contact_uuid);
        }
        assert(convs_without(convs, uuid) == dl.remove(idx).push(convs.last()));
        assert(convs_without(convs, uuid) =~= convs.remove(idx));
    }
}

/// No two message logs share a contact uuid.
pub open spec fn convs_distinct(convs: Seq<ConversationV>) -> bool {
    forall|i: int, j: int|
        0 <= i < j < convs.len() ==> convs[i].contact_uuid != convs[j].contact_uuid
}

/// Whether a message log exists for a contact.
pub open spec fn has_conv(s: StoreV, uuid: Seq<u8>) -> bool {
    exists|i: int| 0 <= i < s.conversations.len() && s.conversations[i].contact_uuid == uuid
}

/// The index of a contact's message log.
pub open spec fn conv_index(s: StoreV, uuid: Seq<u8>) -> int {
    choose|i: int| 0 <= i < s.conversations.len() && s.conversations[i].contact_uuid == uuid
}

/// The rows of a contact's message log.
pub open spec fn conv_rows(s: StoreV, uuid: Seq<u8>) -> Seq<MsgRowV>
    recommends
        has_conv(s, uuid),
{
    s.conversations[conv_index(s, uuid)].rows
}

/// Every other contact's log is untouched between two states: present in
/// one exactly when present in the other, and with the same rows.
pub open spec fn convs_preserved_except(s1: StoreV, s2: StoreV, uuid: Seq<u8>) -> bool {
    forall|u: Seq<u8>|
        u != uuid ==> #[trigger] has_conv(s2, u) == has_conv(s1, u) && (has_conv(s1, u)
            ==> conv_rows(s2, u) == conv_rows(s1, u))
}

/// With distinct logs, the log found at an index is the one its uuid names.
pub proof fn lemma_conv_at(s: StoreV, i: int)
    requires
        convs_distinct(s.conversations),
        0 <= i < s.conversations.len(),
    ensures
        has_conv(s, s.conversations[i].contact_uuid),
        conv_index(s, s.conversations[i].contact_uuid) == i,
        conv_rows(s, s.conversations[i].contact_uuid) == s.conversations[i].rows,
{
    let uuid = s.conversations[i].contact_uuid;
    assert(has_conv(s, uuid));
    let j = conv_index(s, uuid);
    if i != j {
        assert(s.conversations[i].contact_uuid != s.conversations[j].contact_uuid);
        assert(false);
    }
}

impl Store {
    /// The store is well formed: metadata keys unique, message logs named
    /// uniquely.
    pub open spec fn wf(&self) -> bool {
        &&& self.main.wf()
        &&& convs_distinct(self@.conversations)
    }

    /// A fresh, empty database: an empty metadata table, no other tables.
    pub fn new() -> (r: Store)
        ensures
            r.wf(),
            r@.main == Map::<Seq<char>, Seq<u8>>::empty(),
            r@.contacts is None,
            r@.files is None,
            r@.avatars is None,
            r@.conversations == Seq::<ConversationV>::empty(),
    {
        let s = Store {
            main: KeyValueTable::new(),
            contacts: None,
            files: None,
            avatars: None,
            conversations: Vec::new(),
        };
        proof {
            assert(s@.conversations =~= Seq::<ConversationV>::empty());
        }
        s
    }

    /// Find a contact's message log.
    pub fn find_conv(&self, uuid: &[u8]) -> (r: Option<usize>)
        ensures
            r matches Some(i) ==> i < self@.conversations.len()
                && self@.conversations[i as int].contact_uuid == uuid@,
            r is None ==> !has_conv(self@, uuid@),
    {
        let n = self.conversations.len();
        for i in 0..n
            invariant
                n == self.conversations@.len(),
                n == self@.conversations.len(),
                forall|j: int| 0 <= j < i ==> self@.conversations[j].contact_uuid != uuid@,
        {
            proof {
                assert(self@.conversations[i as int] == self.conversations@[i as int]@);
            }
            if bytes_eq(self.conversations[i].contact_uuid.as_slice(), uuid) {
                return Some(i);
            }
        }
        None
    }
}

} // verus!
