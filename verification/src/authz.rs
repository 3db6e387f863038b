//! Authorization tiers and the capabilities they guard.
//!
//! [`crate::actor::ActorContext`] says who a request is from; [`AuthLevel`]
//! says what they are allowed to do.

use vstd::prelude::*;

verus! {

/// Authorization tier of a request.
#[derive(Debug, Clone, Copy, PartialEq, Eq, Structural)]
pub enum AuthLevel {
    /// No auth configured.
    Anonymous,
    /// Authenticated as the configured root user.
    Root,
    /// Authenticated as a user of the store.
    User,
}

/// Coarse-grained capabilities guarded by the auth layer.
#[derive(Debug, Clone, Copy, PartialEq, Eq, Structural)]
pub enum Capability {
    /// Operational admin routes. Root-only in multi-user mode.
    Admin,
    /// User lifecycle routes. Root-only always.
    UserManagement,
    /// Regular read surfaces.
    NormalRead,
    /// Regular write surfaces that attribute to the resolved actor.
    NormalWrite,
    /// Loop-prevention admission-chain skip header.
    SkipAdmissionChain,
}

/// Authorization failure, with a policy message.
#[derive(Debug, Clone, Copy, PartialEq, Eq)]
pub enum AuthzError {
    /// The caller must authenticate before the capability can be used.
    AuthenticationRequired(&'static str),
    /// The caller authenticated, but the capability is root-only.
    Forbidden(&'static str),
}

/// The kind and text of an [`AuthzError`].
pub enum Refusal {
    AuthenticationRequired(Seq<char>),
    Forbidden(Seq<char>),
}

impl View for AuthzError {
    type V = Refusal;

    open spec fn view(&self) -> Refusal {
        match self {
            AuthzError::AuthenticationRequired(msg) => Refusal::AuthenticationRequired(msg@),
            AuthzError::Forbidden(msg) => Refusal::Forbidden(msg@),
        }
    }
}

impl Refusal {
    /// The policy message.
    pub open spec fn message(self) -> Seq<char> {
        match self {
            Refusal::AuthenticationRequired(msg) => msg,
            Refusal::Forbidden(msg) => msg,
        }
    }
}

impl AuthzError {
    /// Human-readable policy message.
    #[must_use]
    pub fn message(self) -> (r: &'static str)
        ensures
            r@ == self@.message(),
    {
        match self {
            AuthzError::AuthenticationRequired(msg) => msg,
            AuthzError::Forbidden(msg) => msg,
        }
    }

    /// Should the response be an authentication challenge?
    #[must_use]
    pub fn is_authentication_required(self) -> (r: bool)
        ensures
            r == self@ is AuthenticationRequired,
    {
        matches!(self, AuthzError::AuthenticationRequired(_))
    }
}

impl AuthLevel {
    /// Why a root-only capability is refused to this tier, if it is: the
    /// first message for a caller who did not authenticate, the second for
    /// one who did.
    pub open spec fn root_only(
        self,
        anonymous_message: Seq<char>,
        user_message: Seq<char>,
    ) -> Option<Refusal> {
        match self {
            AuthLevel::Root => None,
            AuthLevel::Anonymous => Some(Refusal::AuthenticationRequired(anonymous_message)),
            AuthLevel::User => Some(Refusal::Forbidden(user_message)),
        }
    }

    /// Why this tier is refused `capability`, if it is.
    pub open spec fn refusal(
        self,
        capability: Capability,
        multi_user_enabled: bool,
    ) -> Option<Refusal> {
        match capability {
            Capability::NormalRead => None,
            Capability::NormalWrite => None,
            Capability::SkipAdmissionChain => if self == AuthLevel::User {
                Some(Refusal::Forbidden("admission webhook skip is root-only"@))
            } else {
                None
            },
            Capability::Admin => if multi_user_enabled {
                self.root_only(
                    "admin operation requires authentication in multi-user mode"@,
                    "admin operation is root-only in multi-user mode"@,
                )
            } else {
                None
            },
            Capability::UserManagement => self.root_only(
                "user management requires authentication"@,
                "user management is root-only"@,
            ),
        }
    }

    /// Check whether this tier can use `capability`.
    ///
    /// `multi_user_enabled` is whether any user row exists. Operational admin
    /// routes are open until the first user is created; user management is
    /// root-only always.
    pub fn authorize(self, capability: Capability, multi_user_enabled: bool) -> (r: Result<
        (),
        AuthzError,
    >)
        ensures
            r is Ok <==> self.refusal(capability, multi_user_enabled) is None,
            r matches Err(e) ==> self.refusal(capability, multi_user_enabled) == Some(e@),
    {
        match capability {
            Capability::NormalRead | Capability::NormalWrite => Ok(()),
            Capability::SkipAdmissionChain => match self {
                AuthLevel::User => Err(
                    AuthzError::Forbidden("admission webhook skip is root-only"),
                ),
                AuthLevel::Anonymous | AuthLevel::Root => Ok(()),
            },
            Capability::Admin => {
                if !multi_user_enabled {
                    return Ok(());
                }
                self.require_root(
                    "admin operation requires authentication in multi-user mode",
                    "admin operation is root-only in multi-user mode",
                )
            },
            Capability::UserManagement => self.require_root(
                "user management requires authentication",
                "user management is root-only",
            ),
        }
    }

    fn require_root(self, anonymous_message: &'static str, user_message: &'static str) -> (r:
        Result<(), AuthzError>)
        ensures
            r is Ok <==> self.root_only(anonymous_message@, user_message@) is None,
            r matches Err(e) ==> self.root_only(anonymous_message@, user_message@) == Some(e@),
    {
        match self {
            AuthLevel::Root => Ok(()),
            AuthLevel::Anonymous => Err(AuthzError::AuthenticationRequired(anonymous_message)),
            AuthLevel::User => Err(AuthzError::Forbidden(user_message)),
        }
    }
}

/// Root is allowed everywhere.
pub proof fn law_root_is_never_refused(capability: Capability, multi_user_enabled: bool)
    ensures
        AuthLevel::Root.refusal(capability, multi_user_enabled) is None,
{
}

/// Regular reads and writes are allowed to every tier.
pub proof fn law_normal_use_is_never_refused(level: AuthLevel, multi_user_enabled: bool)
    ensures
        level.refusal(Capability::NormalRead, multi_user_enabled) is None,
        level.refusal(Capability::NormalWrite, multi_user_enabled) is None,
{
}

/// Admin routes are open to every tier in single-user mode, and to root alone
/// in multi-user mode.
pub proof fn law_admin_is_root_only_in_multi_user_mode(level: AuthLevel)
    ensures
        level.refusal(Capability::Admin, false) is None,
        level.refusal(Capability::Admin, true) is None <==> level == AuthLevel::Root,
{
}

/// User management is open to root alone, in both modes, and refused with the
/// same words in both.
pub proof fn law_user_management_is_root_only(level: AuthLevel, multi_user_enabled: bool)
    ensures
        level.refusal(Capability::UserManagement, multi_user_enabled) is None <==> level
            == AuthLevel::Root,
        level.refusal(Capability::UserManagement, multi_user_enabled) == level.refusal(
            Capability::UserManagement,
            !multi_user_enabled,
        ),
{
}

/// A caller who did not authenticate is asked to, and one who did is told
/// that the capability is root-only; never the other way round.
pub proof fn law_refusal_tells_the_tier(
    level: AuthLevel,
    capability: Capability,
    multi_user_enabled: bool,
)
    ensures
        level.refusal(capability, multi_user_enabled) matches Some(why) ==> {
            &&& why is AuthenticationRequired <==> level == AuthLevel::Anonymous
            &&& why is Forbidden <==> level == AuthLevel::User
        },
{
}

/// The view of a refusal shows its kind and its message, and the message is
/// the one it was made with.
pub proof fn law_view_shows_the_refusal(msg: &'static str, words: Seq<char>)
    ensures
        AuthzError::AuthenticationRequired(msg)@ == Refusal::AuthenticationRequired(msg@),
        AuthzError::Forbidden(msg)@ == Refusal::Forbidden(msg@),
        Refusal::AuthenticationRequired(words).message() == words,
        Refusal::Forbidden(words).message() == words,
{
}

/// Every refusal there is, word for word.
pub proof fn law_refusals_word_for_word(multi_user_enabled: bool)
    ensures
        AuthLevel::Anonymous.refusal(Capability::Admin, true) == Some(
            Refusal::AuthenticationRequired(
                "admin operation requires authentication in multi-user mode"@,
            ),
        ),
        AuthLevel::User.refusal(Capability::Admin, true) == Some(
            Refusal::Forbidden("admin operation is root-only in multi-user mode"@),
        ),
        AuthLevel::Anonymous.refusal(Capability::UserManagement, multi_user_enabled) == Some(
            Refusal::AuthenticationRequired("user management requires authentication"@),
        ),
        AuthLevel::User.refusal(Capability::UserManagement, multi_user_enabled) == Some(
            Refusal::Forbidden("user management is root-only"@),
        ),
        AuthLevel::User.refusal(Capability::SkipAdmissionChain, multi_user_enabled) == Some(
            Refusal::Forbidden("admission webhook skip is root-only"@),
        ),
        AuthLevel::Anonymous.refusal(Capability::SkipAdmissionChain, multi_user_enabled) is None,
{
}

} // verus!
