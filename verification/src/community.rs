//! Community documents: members, roles, channels, invites, and who may do what.
use crate::assoc::{contains_did, find_id, find_name, has_did, id_lookup, insert_did, name_lookup};
use crate::clock::{new_uuid, now_nanos};
use crate::codec::{bs58_decode, bs58_decoded, bs58_encode, bs58_encoded, date_string, date_text};
use crate::conversation::fields_view;
use crate::did::{key_of_did, DIDEd25519Reference};
use crate::error::Error;
use crate::message::{be_bytes, be_bytes_exec, string_bytes};
use crate::page::opt_view;
use vstd::utf8::encode_utf8;
use vstd::prelude::*;

verus! {

/// A role of a community and the identities that hold it.
pub struct CommunityRoleDocument {
    pub id: u128,
    pub name: String,
    pub members: Vec<String>,
}

impl CommunityRoleDocument {
    /// A role with no members yet; `id` is the new role's id.
    pub fn new_with(id: u128, name: String) -> (r: Self)
        ensures
            r.id == id,
            r.name@ == name@,
            r.members@.len() == 0,
    {
        CommunityRoleDocument { id, name, members: Vec::new() }
    }

    /// A role with no members yet and a fresh random id.
    pub fn new(name: String) -> (r: Self)
        ensures
            r.name@ == name@,
            r.members@.len() == 0,
    {
        Self::new_with(new_uuid(), name)
    }
}

/// An invite into a community, possibly for one user only and possibly
/// expiring (times in nanoseconds since the epoch).
pub struct CommunityInviteDocument {
    pub id: u128,
    pub target_user: Option<String>,
    pub created: i64,
    pub expiry: Option<i64>,
}

impl CommunityInviteDocument {
    /// An invite with id `id`, created at `created`.
    pub fn new_at(id: u128, target_user: Option<String>, created: i64, expiry: Option<i64>) -> (r: Self)
        ensures
            r.id == id,
            r.target_user == target_user,
            r.created == created,
            r.expiry == expiry,
    {
        CommunityInviteDocument { id, target_user, created, expiry }
    }

    /// An invite with a fresh random id, created now.
    pub fn new(target_user: Option<String>, expiry: Option<i64>) -> (r: Self)
        ensures
            r.target_user == target_user,
            r.expiry == expiry,
    {
        Self::new_at(new_uuid(), target_user, now_nanos(), expiry)
    }
}

/// The kind of a channel.
#[derive(PartialEq, Eq, Structural, Clone, Copy)]
pub enum CommunityChannelType {
    Standard,
    VoiceEnabled,
}

/// A channel of a community: its permissions map a permission name to the
/// roles that hold it in this channel.
pub struct CommunityChannelDocument {
    pub id: u128,
    pub name: String,
    pub description: Option<String>,
    pub created: i64,
    pub modified: i64,
    pub channel_type: CommunityChannelType,
    pub permissions: Vec<(String, Vec<u128>)>,
    pub messages: Option<String>,
}

impl CommunityChannelDocument {
    /// A channel with a fresh random id, without permissions or messages,
    /// created now.
    pub fn new(name: String, description: Option<String>, channel_type: CommunityChannelType) -> (r: Self)
        ensures
            r.name@ == name@,
            r.description == description,
            r.channel_type == channel_type,
            r.created == r.modified,
            r.permissions@.len() == 0,
            r.messages is None,
    {
        Self::new_at(new_uuid(), name, description, channel_type, now_nanos())
    }

    /// A channel without permissions or messages, created at `now`.
    pub fn new_at(
        id: u128,
        name: String,
        description: Option<String>,
        channel_type: CommunityChannelType,
        now: i64,
    ) -> (r: Self)
        ensures
            r.id == id,
            r.name@ == name@,
            r.description == description,
            r.channel_type == channel_type,
            r.created == now,
            r.modified == now,
            r.permissions@.len() == 0,
            r.messages is None,
    {
        CommunityChannelDocument {
            id,
            name,
            description,
            created: now,
            modified: now,
            channel_type,
            permissions: Vec::new(),
            messages: None,
        }
    }
}

/// A community.
pub struct CommunityDocument {
    pub id: u128,
    pub name: String,
    pub description: Option<String>,
    pub owner: String,
    pub created: i64,
    pub modified: i64,
    pub members: Vec<String>,
    pub channels: Vec<(u128, CommunityChannelDocument)>,
    pub roles: Vec<(u128, CommunityRoleDocument)>,
    pub permissions: Vec<(String, Vec<u128>)>,
    pub invites: Vec<(u128, CommunityInviteDocument)>,
    pub deleted: bool,
    pub icon: Option<String>,
    pub banner: Option<String>,
    pub signature: Option<String>,
}

/// Some role among `authorized` exists in the community and has `user` as member.
pub open spec fn role_grants(roles: Seq<(u128, CommunityRoleDocument)>, authorized: Seq<u128>, user: Seq<char>) -> bool {
    exists|i: int|
        0 <= i < authorized.len() && (#[trigger] id_lookup(roles, authorized[i]) matches Some(r) && has_did(
            r.members@,
            user,
        ))
}

/// Whether `user` may use the community permission named `permission`: the
/// owner always may; a non-member never; a member may when no roles are set
/// for the permission, or when one of its roles has the member.
pub open spec fn spec_has_permission(doc: &CommunityDocument, user: Seq<char>, permission: Seq<char>) -> bool {
    doc.owner@ == user || (has_did(doc.members@, user) && match name_lookup(doc.permissions@, permission) {
        None => true,
        Some(authorized) => role_grants(doc.roles@, authorized@, user),
    })
}

/// Whether `user` may use the permission in channel `channel_id`: as above,
/// with the channel's own permissions; a channel that does not exist grants
/// nothing to a member.
pub open spec fn spec_has_channel_permission(
    doc: &CommunityDocument,
    user: Seq<char>,
    permission: Seq<char>,
    channel_id: u128,
) -> bool {
    doc.owner@ == user || (has_did(doc.members@, user) && match id_lookup(doc.channels@, channel_id) {
        None => false,
        Some(channel) => match name_lookup(channel.permissions@, permission) {
            None => true,
            Some(authorized) => role_grants(doc.roles@, authorized@, user),
        },
    })
}

/// An invite is usable by `user` at time `now`: not expired before `now`,
/// and meant for everyone or for `user`.
pub open spec fn invite_valid(invite: CommunityInviteDocument, user: Seq<char>, now: i64) -> bool {
    (match invite.expiry {
        Some(expiry) => !(expiry < now),
        None => true,
    }) && (match invite.target_user {
        Some(target) => target@ == user,
        None => true,
    })
}

pub open spec fn spec_has_valid_invite(doc: &CommunityDocument, user: Seq<char>, now: i64) -> bool {
    exists|i: int| 0 <= i < doc.invites@.len() && invite_valid(#[trigger] doc.invites@[i].1, user, now)
}

/// The members, with the owner added last when not a member.
pub open spec fn spec_participants(doc: &CommunityDocument) -> Seq<String> {
    if has_did(doc.members@, doc.owner@) {
        doc.members@
    } else {
        doc.members@.push(doc.owner)
    }
}

fn roles_grant(roles: &Vec<(u128, CommunityRoleDocument)>, authorized: &Vec<u128>, user: &String) -> (b: bool)
    ensures
        b == role_grants(roles@, authorized@, user@),
{
    let mut i: usize = 0;
    while i < authorized.len()
        invariant
            i <= authorized@.len(),
            forall|k: int|
                0 <= k < i ==> !(#[trigger] id_lookup(roles@, authorized@[k]) matches Some(r) && has_did(
                    r.members@,
                    user@,
                )),
        decreases authorized@.len() - i,
    {
        let j = find_id(roles, authorized[i]);
        if j < roles.len() {
            if contains_did(&roles[j].1.members, user) {
                assert(id_lookup(roles@, authorized@[i as int]) == Some(roles@[j as int].1));
                return true;
            }
        }
        i += 1;
    }
    false
}

/// `d` is a new community of `own` named `name`, with id `id`, created and
/// modified at `now`: `own` is its only member; it has no channel, role or
/// invite, no description, icon or banner, and is not deleted; each of the
/// `disabled` permissions is held by no role; and its signature is the
/// base58 text of what `signer` gave for its signing fields.
pub open spec fn founded<S: Fn(&Vec<Option<Vec<u8>>>) -> Vec<u8>>(
    signer: S,
    own: Seq<char>,
    name: Seq<char>,
    id: u128,
    now: i64,
    disabled: Seq<String>,
    d: CommunityDocument,
) -> bool {
    &&& d.id == id && d.name@ == name && d.owner@ == own && d.created == now && d.modified == now
    &&& d.members@.len() == 1 && d.members@[0]@ == own
    &&& d.channels@.len() == 0 && d.roles@.len() == 0 && d.invites@.len() == 0
    &&& initial_permissions(disabled, d.permissions@)
    &&& !d.deleted && d.description is None && d.icon is None && d.banner is None
    &&& exists|f: &Vec<Option<Vec<u8>>>, sig: Vec<u8>|
        fields_view(f@) == community_signing_fields(&d) && #[trigger] call_ensures(signer, (f,), sig) && opt_view(
            d.signature,
        ) == Some(bs58_encoded(sig@)) && bs58_decoded(bs58_encoded(sig@)) == Some(sig@)
}

/// A new community checks out with a `check` that accepts the signatures
/// `signer` makes for its owner's key (a valid one).
pub proof fn law_new_community_checks_out<
    S: Fn(&Vec<Option<Vec<u8>>>) -> Vec<u8>,
    C: Fn(&[u8; 32], &Vec<Option<Vec<u8>>>, &Vec<u8>) -> bool,
>(
    signer: S,
    check: C,
    own: Seq<char>,
    name: Seq<char>,
    id: u128,
    now: i64,
    disabled: Seq<String>,
    d: &CommunityDocument,
    r: Result<(), Error>,
)
    requires
        founded(signer, own, name, id, now, disabled, *d),
        key_of_did(own) is Some,
        accepts_community_signatures_of(signer, check, own),
        community_verify_outcome(check, d, r),
    ensures
        r is Ok,
{
    let (f, sig) = choose|f: &Vec<Option<Vec<u8>>>, sig: Vec<u8>|
        fields_view(f@) == community_signing_fields(d) && #[trigger] call_ensures(signer, (f,), sig) && opt_view(
            d.signature,
        ) == Some(bs58_encoded(sig@)) && bs58_decoded(bs58_encoded(sig@)) == Some(sig@);
    if community_checked(check, d, false) {
        let (k, g, t) = choose|k: &[u8; 32], g: &Vec<Option<Vec<u8>>>, t: &Vec<u8>|
            k@ == key_of_did(d.owner@).unwrap() && fields_view(g@) == community_signing_fields(d) && t@
                == bs58_decoded(opt_view(d.signature).unwrap()).unwrap() && #[trigger] call_ensures(check, (k, g, t), false);
        assert(call_ensures(signer, (f,), sig) && call_ensures(check, (k, g, t), false));
    }
}

impl CommunityDocument {
    pub fn id(&self) -> (r: u128)
        ensures
            r == self.id,
    {
        self.id
    }

    pub fn name(&self) -> (r: &String)
        ensures
            r@ == self.name@,
    {
        &self.name
    }

    /// The members, with the owner added at the end if missing.
    pub fn participants(&self) -> (r: Vec<String>)
        ensures
            r@.len() == spec_participants(self).len(),
            forall|i: int| 0 <= i < r@.len() ==> #[trigger] r@[i]@ == spec_participants(self)[i]@,
    {
        let mut r: Vec<String> = Vec::new();
        let mut i: usize = 0;
        while i < self.members.len()
            invariant
                i <= self.members@.len(),
                r@.len() == i,
                forall|k: int| 0 <= k < i ==> #[trigger] r@[k]@ == self.members@[k]@,
            decreases self.members@.len() - i,
        {
            r.push(self.members[i].clone());
            i += 1;
        }
        let ghost before = r@;
        assert(has_did(r@, self.owner@) == has_did(self.members@, self.owner@)) by {
            if has_did(r@, self.owner@) {
                let k = choose|k: int| 0 <= k < r@.len() && #[trigger] r@[k]@ == self.owner@;
                assert(self.members@[k]@ == self.owner@);
            }
            if has_did(self.members@, self.owner@) {
                let k = choose|k: int| 0 <= k < self.members@.len() && #[trigger] self.members@[k]@ == self.owner@;
                assert(r@[k]@ == self.owner@);
            }
        }
        insert_did(&mut r, self.owner.clone());
        r
    }

    /// Whether some invite is usable by `user` at time `now`.
    pub fn has_valid_invite_at(&self, user: &String, now: i64) -> (b: bool)
        ensures
            b == spec_has_valid_invite(self, user@, now),
    {
        let mut i: usize = 0;
        while i < self.invites.len()
            invariant
                i <= self.invites@.len(),
                forall|k: int| 0 <= k < i ==> !invite_valid(#[trigger] self.invites@[k].1, user@, now),
            decreases self.invites@.len() - i,
        {
            let invite = &self.invites[i].1;
            let is_expired = match invite.expiry {
                Some(expiry) => expiry < now,
                None => false,
            };
            let is_valid_target = match &invite.target_user {
                Some(target) => *user == *target,
                None => true,
            };
            if !is_expired && is_valid_target {
                return true;
            }
            i += 1;
        }
        false
    }

    /// Whether some invite is usable by `user` now.
    pub fn has_valid_invite(&self, user: &String) -> (b: bool)
        ensures
            exists|now: i64| b == spec_has_valid_invite(self, user@, now),
    {
        let now = now_nanos();
        self.has_valid_invite_at(user, now)
    }

    /// Whether `user` may use the community permission `permission`.
    pub fn has_permission(&self, user: &String, permission: &String) -> (b: bool)
        ensures
            b == spec_has_permission(self, user@, permission@),
    {
        if self.owner == *user {
            return true;
        }
        if !contains_did(&self.members, user) {
            return false;
        }
        let j = find_name(&self.permissions, permission);
        if j >= self.permissions.len() {
            return true;
        }
        roles_grant(&self.roles, &self.permissions[j].1, user)
    }

    /// Whether `user` may use `permission` in channel `channel_id`.
    pub fn has_channel_permission(&self, user: &String, permission: &String, channel_id: u128) -> (b: bool)
        ensures
            b == spec_has_channel_permission(self, user@, permission@, channel_id),
    {
        if self.owner == *user {
            return true;
        }
        if !contains_did(&self.members, user) {
            return false;
        }
        let c = find_id(&self.channels, channel_id);
        if c >= self.channels.len() {
            return false;
        }
        let channel = &self.channels[c].1;
        let j = find_name(&channel.permissions, permission);
        if j >= channel.permissions.len() {
            return true;
        }
        roles_grant(&self.roles, &channel.permissions[j].1, user)
    }
}

/// What a community's signature covers, in order: its id (16 big-endian
/// bytes), its owner's DID, and the text of its creation date. What is
/// signed is the SHA-256 of these.
pub open spec fn community_signing_fields(doc: &CommunityDocument) -> Seq<Option<Seq<u8>>> {
    seq![Some(be_bytes(doc.id)), Some(encode_utf8(doc.owner@)), Some(encode_utf8(date_text(doc.created)))]
}

/// `check`, asked about the owner's key, the signed fields and the
/// signature's bytes, may answer `c`.
pub open spec fn community_checked<C: Fn(&[u8; 32], &Vec<Option<Vec<u8>>>, &Vec<u8>) -> bool>(
    check: C,
    doc: &CommunityDocument,
    c: bool,
) -> bool {
    exists|k: &[u8; 32], f: &Vec<Option<Vec<u8>>>, s: &Vec<u8>|
        k@ == key_of_did(doc.owner@).unwrap() && fields_view(f@) == community_signing_fields(doc) && s@
            == bs58_decoded(opt_view(doc.signature).unwrap()).unwrap() && #[trigger] call_ensures(check, (k, f, s), c)
}

/// What checking a community document may give: its owner must have an
/// Ed25519 key and its base58 signature must be accepted by `check`.
pub open spec fn community_verify_outcome<C: Fn(&[u8; 32], &Vec<Option<Vec<u8>>>, &Vec<u8>) -> bool>(
    check: C,
    doc: &CommunityDocument,
    r: Result<(), Error>,
) -> bool {
    if key_of_did(doc.owner@) is None {
        r == Err::<(), Error>(Error::PublicKeyInvalid)
    } else if doc.signature is None {
        r == Err::<(), Error>(Error::InvalidSignature)
    } else if bs58_decoded(opt_view(doc.signature).unwrap()) is None {
        r == Err::<(), Error>(Error::Bs58Error)
    } else {
        (r is Ok && community_checked(check, doc, true)) || (r == Err::<(), Error>(Error::InvalidSignature)
            && community_checked(check, doc, false))
    }
}

/// `after` is `before` with the signature `signer` gave for its fields.
pub open spec fn community_signed<S: Fn(&Vec<Option<Vec<u8>>>) -> Vec<u8>>(
    signer: S,
    before: &CommunityDocument,
    after: &CommunityDocument,
) -> bool {
    exists|f: &Vec<Option<Vec<u8>>>, sig: Vec<u8>|
        fields_view(f@) == community_signing_fields(before) && #[trigger] call_ensures(signer, (f,), sig)
            && opt_view(after.signature) == Some(bs58_encoded(sig@)) && after.id == before.id && after.name@
            == before.name@ && after.owner@ == before.owner@ && after.created == before.created && after.modified
            == before.modified && after.members@ == before.members@ && after.channels@ == before.channels@
            && after.roles@ == before.roles@ && after.permissions@ == before.permissions@ && after.invites@
            == before.invites@ && after.deleted == before.deleted && after.description == before.description
            && after.icon == before.icon && after.banner == before.banner && bs58_decoded(bs58_encoded(sig@)) == Some(
            sig@,
        )
}

/// `check`, given the key of `owner`, accepts every signature `signer`
/// makes, for the fields it was made for.
pub open spec fn accepts_community_signatures_of<
    S: Fn(&Vec<Option<Vec<u8>>>) -> Vec<u8>,
    C: Fn(&[u8; 32], &Vec<Option<Vec<u8>>>, &Vec<u8>) -> bool,
>(signer: S, check: C, owner: Seq<char>) -> bool {
    forall|f: &Vec<Option<Vec<u8>>>, sig: Vec<u8>, k: &[u8; 32], g: &Vec<Option<Vec<u8>>>, s: &Vec<u8>, c: bool|
        #![trigger call_ensures(signer, (f,), sig), call_ensures(check, (k, g, s), c)]
        call_ensures(signer, (f,), sig) && k@ == key_of_did(owner).unwrap() && fields_view(g@) == fields_view(f@)
            && s@ == sig@ && call_ensures(check, (k, g, s), c) ==> c
}

/// A community signed by `signer` checks out with a `check` that accepts
/// the signatures `signer` makes for its owner's key (a valid one).
pub proof fn law_signed_community_checks_out<
    S: Fn(&Vec<Option<Vec<u8>>>) -> Vec<u8>,
    C: Fn(&[u8; 32], &Vec<Option<Vec<u8>>>, &Vec<u8>) -> bool,
>(signer: S, check: C, before: &CommunityDocument, after: &CommunityDocument, r: Result<(), Error>)
    requires
        community_signed(signer, before, after),
        key_of_did(before.owner@) is Some,
        accepts_community_signatures_of(signer, check, before.owner@),
        community_verify_outcome(check, after, r),
    ensures
        r is Ok,
{
    let (f, sig) = choose|f: &Vec<Option<Vec<u8>>>, sig: Vec<u8>|
        fields_view(f@) == community_signing_fields(before) && #[trigger] call_ensures(signer, (f,), sig)
            && opt_view(after.signature) == Some(bs58_encoded(sig@)) && after.id == before.id && after.name@
            == before.name@ && after.owner@ == before.owner@ && after.created == before.created && after.modified
            == before.modified && after.members@ == before.members@ && after.channels@ == before.channels@
            && after.roles@ == before.roles@ && after.permissions@ == before.permissions@ && after.invites@
            == before.invites@ && after.deleted == before.deleted && after.description == before.description
            && after.icon == before.icon && after.banner == before.banner && bs58_decoded(bs58_encoded(sig@)) == Some(
            sig@,
        );
    assert(community_signing_fields(after) == community_signing_fields(before));
    if community_checked(check, after, false) {
        let (k, g, s) = choose|k: &[u8; 32], g: &Vec<Option<Vec<u8>>>, s: &Vec<u8>|
            k@ == key_of_did(after.owner@).unwrap() && fields_view(g@) == community_signing_fields(after) && s@
                == bs58_decoded(opt_view(after.signature).unwrap()).unwrap() && #[trigger] call_ensures(check, (k, g, s), false);
        assert(call_ensures(signer, (f,), sig) && call_ensures(check, (k, g, s), false));
    }
}

/// The permissions a new community starts with: each of the given names,
/// held by no role.
pub open spec fn initial_permissions(disabled: Seq<String>, permissions: Seq<(String, Vec<u128>)>) -> bool {
    permissions.len() == disabled.len() && forall|i: int|
        0 <= i < disabled.len() ==> (#[trigger] permissions[i]).0@ == disabled[i]@ && permissions[i].1@.len() == 0
}

impl CommunityDocument {
    /// The fields a signature covers.
    pub fn signing_fields(&self) -> (r: Vec<Option<Vec<u8>>>)
        ensures
            fields_view(r@) == community_signing_fields(self),
    {
        let mut r: Vec<Option<Vec<u8>>> = Vec::new();
        r.push(Some(be_bytes_exec(self.id)));
        r.push(Some(string_bytes(&self.owner)));
        let created = date_string(self.created);
        r.push(Some(string_bytes(&created)));
        assert(fields_view(r@) =~= community_signing_fields(self));
        r
    }

    /// Signs the document with `signer` (the owner's key).
    pub fn sign<S: Fn(&Vec<Option<Vec<u8>>>) -> Vec<u8>>(&mut self, signer: &S) -> (r: Result<(), Error>)
        requires
            forall|f: &Vec<Option<Vec<u8>>>| call_requires(*signer, (f,)),
        ensures
            r is Ok,
            community_signed(*signer, old(self), final(self)),
    {
        let fields = self.signing_fields();
        let sig = signer(&fields);
        self.signature = Some(bs58_encode(sig.as_slice()));
        Ok(())
    }

    /// Checks the owner's signature with `check`.
    pub fn verify<C: Fn(&[u8; 32], &Vec<Option<Vec<u8>>>, &Vec<u8>) -> bool>(&self, check: &C) -> (r: Result<
        (),
        Error,
    >)
        requires
            forall|k: &[u8; 32], f: &Vec<Option<Vec<u8>>>, s: &Vec<u8>| call_requires(*check, (k, f, s)),
        ensures
            community_verify_outcome(*check, self, r),
    {
        let key = match DIDEd25519Reference::try_from_did(&self.owner) {
            Some(k) => k,
            None => {
                return Err(Error::PublicKeyInvalid);
            },
        };
        let signature = match &self.signature {
            Some(s) => s,
            None => {
                return Err(Error::InvalidSignature);
            },
        };
        let signature = match bs58_decode(signature.as_str()) {
            Some(b) => b,
            None => {
                return Err(Error::Bs58Error);
            },
        };
        let fields = self.signing_fields();
        if check(&key.0, &fields, &signature) {
            Ok(())
        } else {
            Err(Error::InvalidSignature)
        }
    }

    /// A community owned by the caller, with id `id`, created at `now`: the
    /// caller is its only member, each of the `disabled` permissions is held
    /// by no role, and it is signed.
    pub fn new_at<S: Fn(&Vec<Option<Vec<u8>>>) -> Vec<u8>>(
        own_did: &String,
        name: String,
        id: u128,
        now: i64,
        disabled: &Vec<String>,
        signer: &S,
    ) -> (r: Result<Self, Error>)
        requires
            forall|f: &Vec<Option<Vec<u8>>>| call_requires(*signer, (f,)),
        ensures
            r matches Ok(d) && founded(*signer, own_did@, name@, id, now, disabled@, d),
    {
        let mut permissions: Vec<(String, Vec<u128>)> = Vec::new();
        let mut i: usize = 0;
        while i < disabled.len()
            invariant
                i <= disabled@.len(),
                permissions@.len() == i,
                forall|k: int|
                    0 <= k < i ==> (#[trigger] permissions@[k]).0@ == disabled@[k]@ && permissions@[k].1@.len() == 0,
            decreases disabled@.len() - i,
        {
            permissions.push((disabled[i].clone(), Vec::new()));
            i += 1;
        }
        let mut members: Vec<String> = Vec::new();
        members.push(own_did.clone());
        let mut document = CommunityDocument {
            id,
            name,
            description: None,
            owner: own_did.clone(),
            created: now,
            modified: now,
            members,
            channels: Vec::new(),
            roles: Vec::new(),
            permissions,
            invites: Vec::new(),
            deleted: false,
            icon: None,
            banner: None,
            signature: None,
        };
        let ghost before = document;
        let signed = document.sign(signer);
        assert(community_signing_fields(&document) == community_signing_fields(&before));
        Ok(document)
    }

    /// A community owned by the caller, with a fresh random id, created now
    /// (see `new_at`).
    pub fn new<S: Fn(&Vec<Option<Vec<u8>>>) -> Vec<u8>>(
        own_did: &String,
        name: String,
        disabled: &Vec<String>,
        signer: &S,
    ) -> (r: Result<Self, Error>)
        requires
            forall|f: &Vec<Option<Vec<u8>>>| call_requires(*signer, (f,)),
        ensures
            r matches Ok(d) && exists|id: u128, now: i64| #[trigger] founded(*signer, own_did@, name@, id, now, disabled@, d),
    {
        Self::new_at(own_did, name, new_uuid(), now_nanos(), disabled, signer)
    }
}

/// The owner of a community holds every permission, in the community and in
/// every channel; an identity that is neither owner nor member holds none.
pub proof fn law_owner_and_strangers(
    doc: &CommunityDocument,
    user: Seq<char>,
    permission: Seq<char>,
    channel_id: u128,
)
    ensures
        doc.owner@ == user ==> spec_has_permission(doc, user, permission) && spec_has_channel_permission(
            doc,
            user,
            permission,
            channel_id,
        ),
        doc.owner@ != user && !has_did(doc.members@, user) ==> !spec_has_permission(doc, user, permission)
            && !spec_has_channel_permission(doc, user, permission, channel_id),
{
}

/// For a member other than the owner, in a channel that exists: a
/// permission the channel does not name is granted; one it gives to a list
/// of roles is granted exactly when some role of that list exists and has
/// the member. The community's own permissions follow the same rule.
pub proof fn law_roles_decide_for_members(
    doc: &CommunityDocument,
    user: Seq<char>,
    permission: Seq<char>,
    channel_id: u128,
)
    requires
        doc.owner@ != user,
        has_did(doc.members@, user),
    ensures
        id_lookup(doc.channels@, channel_id) matches Some(channel) ==> {
            &&& name_lookup(channel.permissions@, permission) is None ==> spec_has_channel_permission(
                doc,
                user,
                permission,
                channel_id,
            )
            &&& name_lookup(channel.permissions@, permission) matches Some(authorized) ==> (spec_has_channel_permission(
                doc,
                user,
                permission,
                channel_id,
            ) <==> exists|i: int|
                0 <= i < authorized@.len() && #[trigger] id_lookup(doc.roles@, authorized@[i]) is Some && has_did(
                    id_lookup(doc.roles@, authorized@[i])->0.members@,
                    user,
                ))
        },
        id_lookup(doc.channels@, channel_id) is None ==> !spec_has_channel_permission(doc, user, permission, channel_id),
        name_lookup(doc.permissions@, permission) is None ==> spec_has_permission(doc, user, permission),
        name_lookup(doc.permissions@, permission) matches Some(authorized) ==> (spec_has_permission(doc, user, permission)
            <==> exists|i: int|
            0 <= i < authorized@.len() && #[trigger] id_lookup(doc.roles@, authorized@[i]) is Some && has_did(
                id_lookup(doc.roles@, authorized@[i])->0.members@,
                user,
            )),
{
}

} // verus!
