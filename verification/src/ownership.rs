//! Which owned rows a caller may see or act on, and the owner that a write
//! stamps.
//!
//! A row without an owner is shared: it predates ownership, was written by a
//! caller without an identity, or was published to everyone on purpose.

use vstd::prelude::*;
use vstd::string::*;

use crate::actor::{ActorContext, ActorFields, IdentityKey, IdentityName};
use crate::text;

verus! {

/// Which owned rows a caller is allowed to see or act on.
#[derive(Debug, Clone, PartialEq, Eq)]
pub enum OwnerFilter {
    /// An identified caller: their own rows and the shared ones. Holds the
    /// [`IdentityKey::storage_key`] form.
    User(String),
    /// A caller without an identity: shared rows only.
    Unattributed,
    /// Every owner, for operator recovery.
    Any,
}

/// The kind and owner of an [`OwnerFilter`].
pub enum OwnerScope {
    User(Seq<char>),
    Unattributed,
    Any,
}

impl View for OwnerFilter {
    type V = OwnerScope;

    open spec fn view(&self) -> OwnerScope {
        match self {
            OwnerFilter::User(me) => OwnerScope::User(me@),
            OwnerFilter::Unattributed => OwnerScope::Unattributed,
            OwnerFilter::Any => OwnerScope::Any,
        }
    }
}

impl OwnerScope {
    /// The scope of a caller with these fields.
    pub open spec fn of_actor(actor: ActorFields) -> OwnerScope {
        match actor.identity() {
            Some(key) => OwnerScope::User(key.storage_key()),
            None => OwnerScope::Unattributed,
        }
    }

    /// Is a row with this owner in the scope?
    pub open spec fn admits(self, owner: Option<Seq<char>>) -> bool {
        match owner {
            None => true,
            Some(owner) => match self {
                OwnerScope::User(me) => me == owner,
                OwnerScope::Unattributed => false,
                OwnerScope::Any => true,
            },
        }
    }
}

impl OwnerFilter {
    /// The filter of a caller, by the one identity rule in
    /// [`ActorContext::identity_key`].
    #[must_use]
    pub fn for_actor_context(actor: &ActorContext) -> (r: Self)
        ensures
            r@ == OwnerScope::of_actor(actor@),
    {
        match actor.identity_key() {
            Some(key) => Self::User(key.storage_key()),
            None => Self::Unattributed,
        }
    }

    /// Does a row owned by `owner` pass this filter?
    #[must_use]
    pub fn admits(&self, owner: Option<&str>) -> (r: bool)
        ensures
            r == self@.admits(owner.deep_view()),
    {
        match owner {
            None => true,
            Some(owner) => match self {
                Self::Any => true,
                Self::User(me) => text::same_text(me.as_str(), owner),
                Self::Unattributed => false,
            },
        }
    }
}

/// The owner that a write by `identity` leaves on a row.
pub open spec fn stamp(
    identity: Option<IdentityName>,
    distinguishes_operators: bool,
) -> Option<Seq<char>> {
    match identity {
        Some(key) => if distinguishes_operators {
            Some(key.storage_key())
        } else {
            None
        },
        None => None,
    }
}

/// The owner to stamp on a row that a request creates, the write-side mirror
/// of [`OwnerFilter::for_actor_context`].
///
/// A deployment that does not distinguish operators stamps nothing: its one
/// operator may come in over one transport with a name and over another
/// without, and both must see the same rows.
#[must_use]
pub fn owner_stamp(identity: Option<&IdentityKey>, distinguishes_operators: bool) -> (r: Option<
    String,
>)
    ensures
        r.deep_view() == stamp(identity.deep_view(), distinguishes_operators),
{
    if !distinguishes_operators {
        return None;
    }
    match identity {
        Some(key) => Some(key.storage_key()),
        None => None,
    }
}

/// Shared rows reach everyone.
pub proof fn law_shared_rows_reach_everyone(scope: OwnerScope)
    ensures
        scope.admits(None),
{
}

/// Owned rows reach their owner and the recovery scope, and nobody else.
pub proof fn law_owned_rows_reach_their_owner_only(scope: OwnerScope, owner: Seq<char>)
    ensures
        scope.admits(Some(owner)) <==> scope == OwnerScope::User(owner) || scope == OwnerScope::Any,
{
}

/// A caller may read every row they write, whether or not the deployment
/// distinguishes operators, then or later.
pub proof fn law_writers_read_their_own_rows(actor: ActorFields, distinguishes_operators: bool)
    ensures
        OwnerScope::of_actor(actor).admits(stamp(actor.identity(), distinguishes_operators)),
{
}

/// Where operators are distinguished, a caller reads the row of an identified
/// writer if and only if both are the same operator.
pub proof fn law_operators_read_only_their_own_rows(reader: ActorFields, writer: ActorFields)
    requires
        writer.identity() is Some,
    ensures
        OwnerScope::of_actor(reader).admits(stamp(writer.identity(), true)) <==> reader.identity()
            == writer.identity(),
{
    if let Some(a) = reader.identity() {
        let b = writer.identity()->0;
        if a.storage_key() == b.storage_key() {
            crate::actor::law_storage_key_injective(a, b);
        }
    }
}

/// Where operators are not distinguished, every row that is written is
/// shared, so that every transport of the one operator sees it.
pub proof fn law_single_operator_rows_are_shared(
    writer: Option<IdentityName>,
    scope: OwnerScope,
)
    ensures
        stamp(writer, false) is None,
        scope.admits(stamp(writer, false)),
{
}

/// A row is stamped if and only if the writer is identified and the
/// deployment distinguishes operators, and the stamp names the writer.
pub proof fn law_stamp_names_the_writer(
    writer: Option<IdentityName>,
    distinguishes_operators: bool,
)
    ensures
        stamp(writer, distinguishes_operators) is Some <==> writer is Some
            && distinguishes_operators,
        stamp(writer, distinguishes_operators) matches Some(owner)
            ==> IdentityName::from_storage_key(owner) == writer,
{
    if let Some(key) = writer {
        crate::actor::law_storage_key_round_trip(key);
    }
}

/// A user's rows never pass the filter of the subject of the same name, nor
/// the other way round.
pub proof fn law_filters_do_not_alias(v: Seq<char>, w: Seq<char>)
    ensures
        !OwnerScope::User(IdentityName::User(v).storage_key()).admits(
            Some(IdentityName::Subject(w).storage_key()),
        ),
        !OwnerScope::User(IdentityName::Subject(w).storage_key()).admits(
            Some(IdentityName::User(v).storage_key()),
        ),
{
    crate::actor::law_username_never_aliases_subject(v, w);
}

/// The view of a filter shows its kind and the owner it holds.
pub proof fn law_view_shows_the_filter(me: String)
    ensures
        OwnerFilter::User(me)@ == OwnerScope::User(me@),
        OwnerFilter::Unattributed@ == OwnerScope::Unattributed,
        OwnerFilter::Any@ == OwnerScope::Any,
{
}

/// The filter of an identified caller holds the text that a write of the same
/// caller is stamped with where operators are distinguished, and a caller
/// without an identity is unattributed.
pub proof fn law_filters_hold_what_writes_stamp(actor: ActorFields)
    ensures
        actor.identity() matches Some(key) ==> {
            &&& OwnerScope::of_actor(actor) == OwnerScope::User(key.storage_key())
            &&& stamp(Some(key), true) == Some(key.storage_key())
        },
        actor.identity() is None ==> OwnerScope::of_actor(actor) == OwnerScope::Unattributed,
{
}

} // verus!
