//! Who triggered an operation, and the qualified key they own rows under.
//!
//! Data is single-tenant: everyone who is let in sees the same pages. Writes
//! are attributed, not gated. [`ActorContext`] carries the identity of one
//! request; [`IdentityKey`] is the one value that ownership is keyed on.

use vstd::prelude::*;
use vstd::string::*;

use crate::text;

verus! {

/// Identity of the actor that triggered an operation. Every field may be
/// absent, so partial identity can be told and the default is anonymous.
#[derive(Debug, Clone, PartialEq, Eq)]
pub struct ActorContext {
    /// Which client triggered the write, such as `cli` or `hook`.
    pub agent: Option<String>,
    /// Human-readable username. `None` is anonymous.
    pub user: Option<String>,
    /// Display name.
    pub name: Option<String>,
    /// Email address.
    pub email: Option<String>,
    /// Session id from the agent.
    pub session_id: Option<String>,
    /// OIDC subject claim, asserted by an external auth proxy.
    pub sub: Option<String>,
    /// Id of the client installation, asserted by an external auth proxy.
    pub client: Option<String>,
}

/// The texts that an [`ActorContext`] holds.
pub struct ActorFields {
    pub agent: Option<Seq<char>>,
    pub user: Option<Seq<char>>,
    pub name: Option<Seq<char>>,
    pub email: Option<Seq<char>>,
    pub session_id: Option<Seq<char>>,
    pub sub: Option<Seq<char>>,
    pub client: Option<Seq<char>>,
}

impl View for ActorContext {
    type V = ActorFields;

    open spec fn view(&self) -> ActorFields {
        ActorFields {
            agent: self.agent.deep_view(),
            user: self.user.deep_view(),
            name: self.name.deep_view(),
            email: self.email.deep_view(),
            session_id: self.session_id.deep_view(),
            sub: self.sub.deep_view(),
            client: self.client.deep_view(),
        }
    }
}

/// The name that a field gives: its trimmed text, unless that is empty.
pub open spec fn name_in(field: Option<Seq<char>>) -> Option<Seq<char>> {
    match field {
        Some(v) => if text::trimmed(v).len() > 0 {
            Some(text::trimmed(v))
        } else {
            None
        },
        None => None,
    }
}

impl ActorFields {
    /// No field is set.
    pub open spec fn anonymous() -> ActorFields {
        ActorFields {
            agent: None,
            user: None,
            name: None,
            email: None,
            session_id: None,
            sub: None,
            client: None,
        }
    }

    /// At least one field is set.
    pub open spec fn any_set(self) -> bool {
        ||| self.agent is Some
        ||| self.user is Some
        ||| self.name is Some
        ||| self.email is Some
        ||| self.session_id is Some
        ||| self.sub is Some
        ||| self.client is Some
    }

    /// The operator that these fields name: by subject if one is asserted,
    /// else by username. Blank values name nobody.
    pub open spec fn identity(self) -> Option<IdentityName> {
        match name_in(self.sub) {
            Some(sub) => Some(IdentityName::Subject(sub)),
            None => match name_in(self.user) {
                Some(user) => Some(IdentityName::User(user)),
                None => None,
            },
        }
    }
}

impl Default for ActorContext {
    /// The anonymous actor.
    fn default() -> (r: Self)
        ensures
            r@ == ActorFields::anonymous(),
    {
        ActorContext {
            agent: None,
            user: None,
            name: None,
            email: None,
            session_id: None,
            sub: None,
            client: None,
        }
    }
}

/// The trimmed text of a field, unless that is empty.
fn trimmed_name(field: &Option<String>) -> (r: Option<String>)
    ensures
        r.deep_view() == name_in(field.deep_view()),
{
    match field {
        Some(v) => {
            let t: &str = text::trim(v.as_str());
            if t.is_empty() {
                None
            } else {
                Some(t.to_owned())
            }
        },
        None => None,
    }
}

impl ActorContext {
    /// Is at least one identity field set?
    #[must_use]
    pub fn has_any(&self) -> (r: bool)
        ensures
            r == self@.any_set(),
    {
        self.agent.is_some() || self.user.is_some() || self.name.is_some() || self.email.is_some()
            || self.session_id.is_some() || self.sub.is_some() || self.client.is_some()
    }

    /// The anonymous actor, same as the default.
    #[must_use]
    pub fn anonymous() -> (r: Self)
        ensures
            r@ == ActorFields::anonymous(),
    {
        Self::default()
    }

    /// Does this actor name a specific human, and under what key?
    ///
    /// Every ownership decision goes through here: an ingress that forwards
    /// only the subject claim names an operator just as well as one that
    /// forwards a username. `sub` wins whenever it is present, since OIDC
    /// defines it as the stable identifier. Blank values name nobody.
    #[must_use]
    pub fn identity_key(&self) -> (r: Option<IdentityKey>)
        ensures
            r.deep_view() == self@.identity(),
    {
        if let Some(sub) = trimmed_name(&self.sub) {
            return Some(IdentityKey::Subject(sub));
        }
        match trimmed_name(&self.user) {
            Some(user) => Some(IdentityKey::User(user)),
            None => None,
        }
    }
}

/// A qualified operator identity: `User("alice")` and `Subject("alice")` are
/// different operators, always.
#[derive(Debug, Clone, PartialEq, Eq, Hash)]
pub enum IdentityKey {
    /// Named by an OIDC subject claim.
    Subject(String),
    /// Named by an asserted or configured username.
    User(String),
}

/// The kind and text of an [`IdentityKey`].
pub enum IdentityName {
    Subject(Seq<char>),
    User(Seq<char>),
}

impl View for IdentityKey {
    type V = IdentityName;

    open spec fn view(&self) -> IdentityName {
        match self {
            IdentityKey::Subject(v) => IdentityName::Subject(v@),
            IdentityKey::User(v) => IdentityName::User(v@),
        }
    }
}

impl DeepView for IdentityKey {
    type V = IdentityName;

    open spec fn deep_view(&self) -> IdentityName {
        self.view()
    }
}

/// A letter or digit of ASCII, a dot, an underscore or a hyphen.
pub open spec fn is_segment_char(c: char) -> bool {
    ||| 'A' <= c <= 'Z'
    ||| 'a' <= c <= 'z'
    ||| '0' <= c <= '9'
    ||| c == '.'
    ||| c == '_'
    ||| c == '-'
}

/// Can `v` stand in a path segment as it is?
pub open spec fn is_readable(v: Seq<char>) -> bool {
    &&& v.len() <= 64
    &&& v.len() > 0 ==> v[0] != '.'
    &&& forall|i: int| 0 <= i < v.len() ==> is_segment_char(#[trigger] v[i])
}

impl IdentityName {
    /// The raw name, without its kind.
    pub open spec fn value(self) -> Seq<char> {
        match self {
            IdentityName::Subject(v) => v,
            IdentityName::User(v) => v,
        }
    }

    /// The name is neither blank nor surrounded by white space.
    pub open spec fn is_clean(self) -> bool {
        name_in(Some(self.value())) == Some(self.value())
    }

    /// The text that owner columns hold.
    pub open spec fn storage_key(self) -> Seq<char> {
        match self {
            IdentityName::Subject(v) => "sub:"@ + v,
            IdentityName::User(v) => "user:"@ + v,
        }
    }

    /// The name whose storage key `key` is, if there is one.
    pub open spec fn from_storage_key(key: Seq<char>) -> Option<IdentityName> {
        match text::after_prefix(key, "sub:"@) {
            Some(sub) => Some(IdentityName::Subject(sub)),
            None => match text::after_prefix(key, "user:"@) {
                Some(user) => Some(IdentityName::User(user)),
                None => None,
            },
        }
    }

    /// The actor that has this name and no other field.
    pub open spec fn actor(self) -> ActorFields {
        match self {
            IdentityName::Subject(v) => ActorFields { sub: Some(v), ..ActorFields::anonymous() },
            IdentityName::User(v) => ActorFields { user: Some(v), ..ActorFields::anonymous() },
        }
    }

    /// The path segment of this operator: the readable name behind its
    /// prefix, or the hexadecimal notation of its UTF-8 bytes behind another.
    pub open spec fn path_segment(self) -> Seq<char> {
        match self {
            IdentityName::Subject(v) => if is_readable(v) {
                "s-"@ + v
            } else {
                "sx-"@ + text::hex(vstd::utf8::encode_utf8(v))
            },
            IdentityName::User(v) => if is_readable(v) {
                "u-"@ + v
            } else {
                "ux-"@ + text::hex(vstd::utf8::encode_utf8(v))
            },
        }
    }
}

/// Can `value` stand in a path segment as it is?
fn readable(value: &str) -> (r: bool)
    ensures
        r == is_readable(value@),
{
    let chars: Vec<char> = text::chars_of(value);
    let n: usize = chars.len();
    if n > 64 {
        return false;
    }
    if n > 0 && chars[0] == '.' {
        return false;
    }
    let mut i: usize = 0;
    while i < n
        invariant
            i <= n == chars@.len(),
            chars@ == value@,
            forall|k: int| 0 <= k < i ==> is_segment_char(#[trigger] chars@[k]),
        decreases n - i,
    {
        let c: char = chars[i];
        let plain: bool = ('A' <= c && c <= 'Z') || ('a' <= c && c <= 'z') || ('0' <= c && c <= '9')
            || c == '.' || c == '_' || c == '-';
        if !plain {
            assert(!is_segment_char(value@[i as int]));
            return false;
        }
        i = i + 1;
    }
    true
}

/// `value` behind `plain` if it is readable, else its hexadecimal notation
/// behind `coded`.
fn encode_segment(value: &str, plain: &str, coded: &str) -> (r: String)
    ensures
        r@ == if is_readable(value@) {
            plain@ + value@
        } else {
            coded@ + text::hex(vstd::utf8::encode_utf8(value@))
        },
{
    if readable(value) {
        let mut r: String = plain.to_owned();
        r.append(value);
        r
    } else {
        let mut r: String = coded.to_owned();
        text::push_hex(&mut r, value.as_bytes());
        r
    }
}

impl IdentityKey {
    /// The text stored in owner columns: `sub:<subject>` or `user:<name>`.
    ///
    /// The prefix runs to the first `:`. Whatever follows it is the raw
    /// value, even if it holds further colons.
    #[must_use]
    pub fn storage_key(&self) -> (r: String)
        ensures
            r@ == self@.storage_key(),
    {
        match self {
            Self::Subject(sub) => {
                let mut r: String = "sub:".to_owned();
                r.append(sub.as_str());
                r
            },
            Self::User(user) => {
                let mut r: String = "user:".to_owned();
                r.append(user.as_str());
                r
            },
        }
    }

    /// Inverse of [`Self::storage_key`]. `None` means that the text is not a
    /// storage key at all.
    #[must_use]
    pub fn from_storage_key(key: &str) -> (r: Option<Self>)
        ensures
            r.deep_view() == IdentityName::from_storage_key(key@),
    {
        if let Some(sub) = text::strip_prefix(key, "sub:") {
            return Some(Self::Subject(sub.to_owned()));
        }
        match text::strip_prefix(key, "user:") {
            Some(user) => Some(Self::User(user.to_owned())),
            None => None,
        }
    }

    /// The [`ActorContext`] this key names: `Subject` fills `sub`, `User`
    /// fills `user`.
    #[must_use]
    pub fn to_actor_context(&self) -> (r: ActorContext)
        ensures
            r@ == self@.actor(),
    {
        let mut actor: ActorContext = ActorContext::default();
        match self {
            Self::Subject(sub) => {
                actor.sub = Some(sub.clone());
            },
            Self::User(user) => {
                actor.user = Some(user.clone());
            },
        }
        actor
    }

    /// A filesystem-safe, injective encoding for per-operator paths.
    ///
    /// Values made only of `[A-Za-z0-9._-]`, at most 64 of them and without a
    /// leading dot, pass through readably as `s-<value>` or `u-<value>`.
    /// Anything else becomes lowercase hexadecimal of its UTF-8 bytes under
    /// the distinct prefixes `sx-` and `ux-`.
    #[must_use]
    pub fn path_segment(&self) -> (r: String)
        ensures
            r@ == self@.path_segment(),
    {
        match self {
            Self::Subject(v) => encode_segment(v.as_str(), "s-", "sx-"),
            Self::User(v) => encode_segment(v.as_str(), "u-", "ux-"),
        }
    }
}

/// A stored owner reads back as the operator that wrote it.
pub proof fn law_storage_key_round_trip(key: IdentityName)
    ensures
        IdentityName::from_storage_key(key.storage_key()) == Some(key),
{
    reveal_strlit("sub:");
    reveal_strlit("user:");
    let stored = key.storage_key();
    match key {
        IdentityName::Subject(v) => {
            assert("sub:"@.is_prefix_of(stored));
            assert(stored.skip(4) =~= v);
        },
        IdentityName::User(v) => {
            assert(stored[0] == 'u');
            assert(!"sub:"@.is_prefix_of(stored)) by {
                if "sub:"@.is_prefix_of(stored) {
                    assert(stored[0] == "sub:"@[0]);
                }
            }
            assert("user:"@.is_prefix_of(stored));
            assert(stored.skip(5) =~= v);
        },
    }
}

/// A text that parses as a storage key is the storage key of what it parses
/// to, so a text that no operator wrote parses to nobody.
pub proof fn law_parsed_key_was_written(stored: Seq<char>)
    ensures
        IdentityName::from_storage_key(stored) matches Some(key) ==> key.storage_key() == stored,
        IdentityName::from_storage_key(stored) is Some <==> exists|key: IdentityName|
            #[trigger] key.storage_key() == stored,
{
    if IdentityName::from_storage_key(stored) is Some {
        let key = IdentityName::from_storage_key(stored)->0;
        assert(key.storage_key() =~= stored);
    }
    if exists|key: IdentityName| #[trigger] key.storage_key() == stored {
        let key = choose|key: IdentityName| #[trigger] key.storage_key() == stored;
        law_storage_key_round_trip(key);
    }
}

/// Different operators have different storage keys.
pub proof fn law_storage_key_injective(a: IdentityName, b: IdentityName)
    requires
        a.storage_key() == b.storage_key(),
    ensures
        a == b,
{
    law_storage_key_round_trip(a);
    law_storage_key_round_trip(b);
}

/// Different operators have different path segments.
pub proof fn law_path_segment_injective(a: IdentityName, b: IdentityName)
    requires
        a.path_segment() == b.path_segment(),
    ensures
        a == b,
{
    reveal_strlit("s-");
    reveal_strlit("sx-");
    reveal_strlit("u-");
    reveal_strlit("ux-");
    let p = a.path_segment();
    let v = a.value();
    let w = b.value();
    assert(p[0] == if a is Subject { 's' } else { 'u' });
    assert(p[0] == if b is Subject { 's' } else { 'u' });
    assert(p[1] == if is_readable(v) { '-' } else { 'x' });
    assert(p[1] == if is_readable(w) { '-' } else { 'x' });
    if is_readable(v) {
        assert(p.skip(2) =~= v);
        assert(p.skip(2) =~= w);
    } else {
        let x = vstd::utf8::encode_utf8(v);
        let y = vstd::utf8::encode_utf8(w);
        assert(p.skip(3) =~= text::hex(x));
        assert(p.skip(3) =~= text::hex(y));
        text::law_hex_injective(x, y);
        text::law_utf8_injective(v, w);
    }
}

/// A username never aliases an equal subject, neither in storage nor in a
/// path.
pub proof fn law_username_never_aliases_subject(v: Seq<char>, w: Seq<char>)
    ensures
        IdentityName::User(v).storage_key() != IdentityName::Subject(w).storage_key(),
        IdentityName::User(v).path_segment() != IdentityName::Subject(w).path_segment(),
{
    let a = IdentityName::User(v);
    let b = IdentityName::Subject(w);
    if a.storage_key() == b.storage_key() {
        law_storage_key_injective(a, b);
    }
    if a.path_segment() == b.path_segment() {
        law_path_segment_injective(a, b);
    }
}

/// A path segment is filesystem-safe: it begins with a letter and holds
/// letters and digits of ASCII, dots, underscores and hyphens only.
pub proof fn law_path_segment_is_safe(key: IdentityName)
    ensures
        key.path_segment().len() >= 2,
        key.path_segment()[0] == 's' || key.path_segment()[0] == 'u',
        forall|i: int|
            0 <= i < key.path_segment().len() ==> is_segment_char(#[trigger] key.path_segment()[i]),
{
    reveal_strlit("s-");
    reveal_strlit("sx-");
    reveal_strlit("u-");
    reveal_strlit("ux-");
    let p = key.path_segment();
    let v = key.value();
    let h = text::hex(vstd::utf8::encode_utf8(v));
    assert forall|i: int| 0 <= i < p.len() implies is_segment_char(#[trigger] p[i]) by {
        if is_readable(v) {
            if i >= 2 {
                assert(p[i] == v[i - 2]);
            }
        } else {
            if i >= 3 {
                text::law_hex_alphabet(vstd::utf8::encode_utf8(v), i - 3);
                assert(p[i] == h[i - 3]);
            }
        }
    }
}

/// A readable name is as long in bytes as in characters, so its segment takes
/// at most 66 bytes.
pub proof fn law_readable_segments_are_short(key: IdentityName)
    requires
        is_readable(key.value()),
    ensures
        vstd::utf8::encode_utf8(key.value()).len() == key.value().len(),
        key.path_segment().len() <= 66,
{
    reveal_strlit("s-");
    reveal_strlit("u-");
    assert(vstd::utf8::is_ascii_chars(key.value()));
    vstd::utf8::is_ascii_chars_encode_utf8(key.value());
}

/// The actor made from a key names the same operator, if and only if the key
/// is clean: a blank name names nobody, and surrounding white space is lost.
pub proof fn law_actor_of_key_names_the_same_operator(key: IdentityName)
    ensures
        key.actor().identity() == Some(key) <==> key.is_clean(),
{
}

/// Whatever key an actor has is clean, so the key survives the way through
/// storage and back into an actor.
pub proof fn law_identity_survives_storage(actor: ActorFields)
    ensures
        actor.identity() matches Some(key) ==> {
            &&& key.is_clean()
            &&& key.actor().identity() == Some(key)
            &&& IdentityName::from_storage_key(key.storage_key()) == Some(key)
        },
{
    if let Some(v) = actor.sub {
        text::law_trimmed_idempotent(v);
    }
    if let Some(v) = actor.user {
        text::law_trimmed_idempotent(v);
    }
    if let Some(key) = actor.identity() {
        law_storage_key_round_trip(key);
    }
}

/// Once a subject is asserted, the key does not depend on any other field: an
/// ingress that starts to forward a username keeps every operator's key.
pub proof fn law_subject_outranks_every_other_field(a: ActorFields, b: ActorFields)
    requires
        name_in(a.sub) is Some,
        a.sub == b.sub,
    ensures
        a.identity() == b.identity(),
        a.identity() == Some(IdentityName::Subject(name_in(a.sub)->0)),
{
}

/// An actor is identified if and only if its subject or its username is more
/// than white space; agent, session and client details name nobody.
pub proof fn law_identified_by_subject_or_username_only(actor: ActorFields)
    ensures
        actor.identity() is Some <==> name_in(actor.sub) is Some || name_in(actor.user) is Some,
        actor.identity() is Some ==> actor.any_set(),
        ActorFields::anonymous().identity() is None,
{
}

/// The view of an actor shows the text of every field under its own name.
pub proof fn law_view_shows_every_field(actor: ActorContext)
    ensures
        actor@.agent == (match actor.agent {
            Some(v) => Some(v@),
            None => None,
        }),
        actor@.user == (match actor.user {
            Some(v) => Some(v@),
            None => None,
        }),
        actor@.name == (match actor.name {
            Some(v) => Some(v@),
            None => None,
        }),
        actor@.email == (match actor.email {
            Some(v) => Some(v@),
            None => None,
        }),
        actor@.session_id == (match actor.session_id {
            Some(v) => Some(v@),
            None => None,
        }),
        actor@.sub == (match actor.sub {
            Some(v) => Some(v@),
            None => None,
        }),
        actor@.client == (match actor.client {
            Some(v) => Some(v@),
            None => None,
        }),
{
}

/// The view of a key shows its kind and its text.
pub proof fn law_view_shows_the_kind_of_key(v: String)
    ensures
        IdentityKey::Subject(v)@ == IdentityName::Subject(v@),
        IdentityKey::User(v)@ == IdentityName::User(v@),
        IdentityKey::Subject(v).deep_view() == IdentityName::Subject(v@),
        IdentityKey::User(v).deep_view() == IdentityName::User(v@),
        IdentityName::Subject(v@).value() == v@,
        IdentityName::User(v@).value() == v@,
{
}

/// An actor has something set unless all seven fields are absent, and the
/// anonymous actor is the one that has nothing set.
pub proof fn law_only_the_anonymous_actor_has_nothing_set(actor: ActorFields)
    ensures
        !actor.any_set() <==> actor.agent is None && actor.user is None && actor.name is None
            && actor.email is None && actor.session_id is None && actor.sub is None
            && actor.client is None,
        !actor.any_set() <==> actor == ActorFields::anonymous(),
{
}

/// A field names what is left of it without the white space around it, and
/// nobody if nothing is left.
pub proof fn law_padding_does_not_change_a_name(
    left: Seq<char>,
    core: Seq<char>,
    right: Seq<char>,
)
    requires
        forall|i: int| 0 <= i < left.len() ==> text::is_white_space(#[trigger] left[i]),
        forall|i: int| 0 <= i < right.len() ==> text::is_white_space(#[trigger] right[i]),
        core.len() > 0 ==> !text::is_white_space(core[0]) && !text::is_white_space(core.last()),
    ensures
        name_in(Some(left + core + right)) == if core.len() > 0 {
            Some(core)
        } else {
            None
        },
        name_in(None) is None,
{
    text::law_trimming_undoes_padding(left, core, right);
}

/// A name is clean if and only if it is not empty and neither begins nor ends
/// with white space.
pub proof fn law_clean_names(key: IdentityName)
    ensures
        key.is_clean() <==> key.value().len() > 0 && !text::is_white_space(key.value()[0])
            && !text::is_white_space(key.value().last()),
{
    let v = key.value();
    let none = Seq::<char>::empty();
    if v.len() > 0 && !text::is_white_space(v[0]) && !text::is_white_space(v.last()) {
        text::law_trimming_undoes_padding(none, v, none);
        assert(none + v + none =~= v);
    }
    text::law_trimmed_ends(v);
}

/// Where no subject is asserted, the username is the key and nothing else is:
/// not the display name, not the email, not what the transport tells.
pub proof fn law_username_is_the_key_without_a_subject(actor: ActorFields)
    requires
        name_in(actor.sub) is None,
    ensures
        name_in(actor.user) matches Some(user) ==> actor.identity() == Some(
            IdentityName::User(user),
        ),
        name_in(actor.user) is None ==> actor.identity() is None,
{
}

/// Two actors with the same subject and the same username are the same
/// operator, whatever their other fields.
pub proof fn law_other_fields_do_not_change_the_operator(a: ActorFields, b: ActorFields)
    requires
        a.sub == b.sub,
        a.user == b.user,
    ensures
        a.identity() == b.identity(),
{
}

/// Two identified actors are the same operator only if they are named by the
/// same field and by the same name in it.
pub proof fn law_same_operator_means_same_name(a: ActorFields, b: ActorFields)
    requires
        a.identity() is Some,
        a.identity() == b.identity(),
    ensures
        name_in(a.sub) == name_in(b.sub),
        name_in(a.sub) is None ==> name_in(a.user) == name_in(b.user) && name_in(a.user) is Some,
{
}

/// The two forms of a storage key: the kind, a colon, and the raw name.
pub proof fn law_storage_key_is_kind_colon_name(v: Seq<char>)
    ensures
        IdentityName::Subject(v).storage_key() == seq!['s', 'u', 'b', ':'] + v,
        IdentityName::User(v).storage_key() == seq!['u', 's', 'e', 'r', ':'] + v,
{
    reveal_strlit("sub:");
    reveal_strlit("user:");
    assert("sub:"@ =~= seq!['s', 'u', 'b', ':']);
    assert("user:"@ =~= seq!['u', 's', 'e', 'r', ':']);
}

/// The actor made from a key has the one field that the key is about, with the
/// raw name in it, and no other.
pub proof fn law_actor_of_key_has_one_field(v: Seq<char>)
    ensures
        IdentityName::Subject(v).actor() == (ActorFields {
            agent: None,
            user: None,
            name: None,
            email: None,
            session_id: None,
            sub: Some(v),
            client: None,
        }),
        IdentityName::User(v).actor() == (ActorFields {
            agent: None,
            user: Some(v),
            name: None,
            email: None,
            session_id: None,
            sub: None,
            client: None,
        }),
{
}

/// Which names pass through a path segment as they are: those of at most 64
/// characters, without a leading dot, made of ASCII letters and digits, dots,
/// underscores and hyphens only. Every other name is written as the
/// hexadecimal digits of its UTF-8 bytes, under a prefix of its own.
pub proof fn law_which_names_pass_through(v: Seq<char>)
    ensures
        (v.len() <= 64 && (v.len() > 0 ==> v[0] != '.') && forall|i: int|
            0 <= i < v.len() ==> 'A' <= #[trigger] v[i] <= 'Z' || 'a' <= v[i] <= 'z' || '0' <= v[i]
                <= '9' || v[i] == '.' || v[i] == '_' || v[i] == '-') ==> {
            &&& IdentityName::User(v).path_segment() == seq!['u', '-'] + v
            &&& IdentityName::Subject(v).path_segment() == seq!['s', '-'] + v
        },
        !(v.len() <= 64 && (v.len() > 0 ==> v[0] != '.') && forall|i: int|
            0 <= i < v.len() ==> 'A' <= #[trigger] v[i] <= 'Z' || 'a' <= v[i] <= 'z' || '0' <= v[i]
                <= '9' || v[i] == '.' || v[i] == '_' || v[i] == '-') ==> {
            &&& IdentityName::User(v).path_segment() == seq!['u', 'x', '-'] + text::hex(
                vstd::utf8::encode_utf8(v),
            )
            &&& IdentityName::Subject(v).path_segment() == seq!['s', 'x', '-'] + text::hex(
                vstd::utf8::encode_utf8(v),
            )
        },
{
    reveal_strlit("s-");
    reveal_strlit("sx-");
    reveal_strlit("u-");
    reveal_strlit("ux-");
    assert("s-"@ =~= seq!['s', '-']);
    assert("sx-"@ =~= seq!['s', 'x', '-']);
    assert("u-"@ =~= seq!['u', '-']);
    assert("ux-"@ =~= seq!['u', 'x', '-']);
}

} // verus!
