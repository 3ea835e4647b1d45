//! API keys: where one is found, and keeping one in the system keyring.
use vstd::prelude::*;
use crate::text::{contains, is_blank, push_str};

verus! {

/// The keyring service the keys are stored under.
pub const SERVICE: &'static str = "true-code";

/// Which wire protocol a provider speaks.
#[derive(Debug, Clone, Copy, PartialEq, Eq, Structural)]
pub enum ProviderKind {
    Anthropic,
    OpenAi,
}

/// A company whose API key is needed.
#[derive(Debug, Clone, Copy, PartialEq, Eq)]
pub struct Vendor {
    /// The name used on the command line, e.g. `openrouter`.
    pub id: &'static str,
    /// The environment variable that may hold the key.
    pub api_key_env: &'static str,
}

/// The known vendors, as values: name and key variable.
pub open spec fn vendors_spec() -> Seq<(Seq<char>, Seq<char>)> {
    seq![
        ("anthropic"@, "ANTHROPIC_API_KEY"@),
        ("openai"@, "OPENAI_API_KEY"@),
        ("openrouter"@, "OPENROUTER_API_KEY"@),
    ]
}

/// The vendor called `id`, if it is known.
pub fn vendor(id: &str) -> (r: Option<Vendor>)
    ensures
        match r {
            Some(v) => exists|i: int|
                0 <= i < vendors_spec().len() && #[trigger] vendors_spec()[i] == (v.id@, v.api_key_env@)
                    && v.id@ == id@,
            None => forall|i: int| 0 <= i < vendors_spec().len() ==> #[trigger] vendors_spec()[i].0 != id@,
        },
{
    let all = vec![
        Vendor { id: "anthropic", api_key_env: "ANTHROPIC_API_KEY" },
        Vendor { id: "openai", api_key_env: "OPENAI_API_KEY" },
        Vendor { id: "openrouter", api_key_env: "OPENROUTER_API_KEY" },
    ];
    let ghost vs = vendors_spec();
    proof {
        assert(all@.map_values(|v: Vendor| (v.id@, v.api_key_env@)) =~= vs);
    }
    let mut i: usize = 0;
    while i < all.len()
        invariant
            i <= all.len(),
            vs == vendors_spec(),
            all@.map_values(|v: Vendor| (v.id@, v.api_key_env@)) == vs,
            forall|j: int| 0 <= j < i ==> #[trigger] vs[j].0 != id@,
        decreases all.len() - i,
    {
        proof {
            assert(all@.map_values(|v: Vendor| (v.id@, v.api_key_env@))[i as int] == (
                all@[i as int].id@,
                all@[i as int].api_key_env@,
            ));
        }
        if crate::text::str_eq(all[i].id, id) {
            return Some(all[i]);
        }
        i += 1;
    }
    None
}

/// Why a key could not be found or kept.
#[derive(Debug)]
pub enum SecretError {
    /// The keyring cannot be used; the environment variable can.
    Keyring { env_var: String, detail: String },
    /// No key anywhere.
    Missing { provider: String, env_var: String },
}

/// The text of a secret error.
pub open spec fn secret_error_text(e: SecretError) -> Seq<char> {
    match e {
        SecretError::Keyring { env_var, detail } => "the system keyring is unavailable ("@ + detail@
            + ") — set "@ + env_var@ + " instead"@,
        SecretError::Missing { provider, env_var } => "no API key for "@ + provider@
            + " — run `truecode auth login "@ + provider@ + "`, or set "@ + env_var@,
    }
}

impl SecretError {
    /// The message shown to the user.
    pub fn message(&self) -> (r: String)
        ensures
            r@ == secret_error_text(*self),
    {
        match self {
            SecretError::Keyring { env_var, detail } => {
                let mut out = String::from_str("the system keyring is unavailable (");
                push_str(&mut out, detail.as_str());
                push_str(&mut out, ") — set ");
                push_str(&mut out, env_var.as_str());
                push_str(&mut out, " instead");
                out
            },
            SecretError::Missing { provider, env_var } => {
                let mut out = String::from_str("no API key for ");
                push_str(&mut out, provider.as_str());
                push_str(&mut out, " — run `truecode auth login ");
                push_str(&mut out, provider.as_str());
                push_str(&mut out, "`, or set ");
                push_str(&mut out, env_var.as_str());
                out
            },
        }
    }
}

/// Where a key was found.
#[derive(Debug, Clone, Copy, PartialEq, Eq, Structural)]
pub enum Source {
    Environment,
    Keyring,
}

/// The label of a source.
pub open spec fn source_label(s: Source) -> Seq<char> {
    match s {
        Source::Environment => "environment"@,
        Source::Keyring => "system keyring"@,
    }
}

impl Source {
    /// How the source is named to the user.
    pub fn label(self) -> (r: &'static str)
        ensures
            r@ == source_label(self),
    {
        match self {
            Source::Environment => "environment",
            Source::Keyring => "system keyring",
        }
    }
}

/// A value that holds a key: present and not blank.
pub open spec fn usable(v: Option<String>) -> bool {
    v matches Some(s) && !is_blank(s@)
}

/// Which key is used: the environment's when it holds one, else the
/// keyring's when it holds one, else none.
pub open spec fn chosen(from_env: Option<String>, from_keyring: Option<String>) -> Option<
    (Seq<char>, Source),
> {
    if usable(from_env) {
        Some((from_env->Some_0@, Source::Environment))
    } else if usable(from_keyring) {
        Some((from_keyring->Some_0@, Source::Keyring))
    } else {
        None
    }
}

/// `chosen` over the values of the two sources.
pub open spec fn chosen_text(from_env: Option<Seq<char>>, from_keyring: Option<Seq<char>>) -> Option<
    (Seq<char>, Source),
> {
    if from_env is Some && !is_blank(from_env->0) {
        Some((from_env->0, Source::Environment))
    } else if from_keyring is Some && !is_blank(from_keyring->0) {
        Some((from_keyring->0, Source::Keyring))
    } else {
        None
    }
}

/// Picks the key to use from what the environment and the keyring hold; a
/// blank value counts as unset.
pub fn resolve(from_env: Option<String>, from_keyring: Option<String>) -> (r: Option<(String, Source)>)
    ensures
        match r {
            Some((k, s)) => chosen(from_env, from_keyring) == Some((k@, s)),
            None => chosen(from_env, from_keyring) is None,
        },
{
    match from_env {
        Some(k) => {
            if !crate::text::str_is_blank(k.as_str()) {
                return Some((k, Source::Environment));
            }
        },
        None => {},
    }
    match from_keyring {
        Some(k) => {
            if !crate::text::str_is_blank(k.as_str()) {
                return Some((k, Source::Keyring));
            }
        },
        None => {},
    }
    None
}

#[verifier::external_type_specification]
#[verifier::external_body]
pub struct ExKeyringEntry(keyring::Entry);

/// A keyring entry, with the service and user it was opened for, the text
/// last handed to it to store, what was last read from it, and whether it
/// was asked to delete its password.
pub struct KeyringEntry {
    service: String,
    user: String,
    written: Ghost<Option<Seq<char>>>,
    read: Ghost<Option<Option<Seq<char>>>>,
    deleted: Ghost<bool>,
    entry: keyring::Entry,
}

impl KeyringEntry {
    /// The service the entry was opened for.
    pub closed spec fn service(&self) -> Seq<char> {
        self.service@
    }

    /// The user the entry was opened for.
    pub closed spec fn user(&self) -> Seq<char> {
        self.user@
    }

    /// The text last handed to the entry to store, if any.
    pub closed spec fn written(&self) -> Option<Seq<char>> {
        self.written@
    }

    /// What the last read of the entry gave (`Some(None)`: no password, or
    /// an error), or `None` when it was not read yet.
    pub closed spec fn last_read(&self) -> Option<Option<Seq<char>>> {
        self.read@
    }

    /// Whether the entry was asked to delete its password.
    pub closed spec fn delete_asked(&self) -> bool {
        self.deleted@
    }

    /// Opens the entry of `user` under `service`; the error's text when the
    /// platform has no usable store.
    pub fn open(service: &str, user: &str) -> (r: Result<KeyringEntry, String>)
        ensures
            r matches Ok(e) ==> e.service() == service@ && e.user() == user@ && e.written() is None
                && e.last_read() is None && !e.delete_asked(),
    {
        match keyring_entry(service, user) {
            Ok(entry) => Ok(
                KeyringEntry {
                    service: String::from_str(service),
                    user: String::from_str(user),
                    written: Ghost(None),
                    read: Ghost(None),
                    deleted: Ghost(false),
                    entry,
                },
            ),
            Err(detail) => Err(detail),
        }
    }
}

/// `keyring::Entry::new(service, user)`: the entry, or the error's text.
/// Whether it succeeds depends on the platform's credential store, so
/// nothing is claimed of the outcome.
#[verifier::external_body]
fn keyring_entry(service: &str, user: &str) -> Result<keyring::Entry, String> {
    keyring::Entry::new(service, user).map_err(|err| err.to_string())
}

/// `keyring::Entry::get_password` on the entry: the stored password, or
/// `None` on any error. The entry records what the read gave; what is stored
/// is outside this program and not claimed.
#[verifier::external_body]
fn keyring_get(e: &mut KeyringEntry) -> (r: Option<String>)
    ensures
        final(e).service() == old(e).service(),
        final(e).user() == old(e).user(),
        final(e).written() == old(e).written(),
        final(e).last_read() == Some(opt_str(r)),
        final(e).delete_asked() == old(e).delete_asked(),
{
    let r = e.entry.get_password().ok();
    e.read = Ghost(Some(opt_str(r)));
    r
}

/// An optional string as an optional value.
pub open spec fn opt_str(v: Option<String>) -> Option<Seq<char>> {
    match v {
        Some(s) => Some(s@),
        None => None,
    }
}

/// `keyring::Entry::set_password(password)` on the entry: `Ok` or the
/// error's text. The entry records that `password` was handed to it;
/// whether the store accepts it is outside this program and not claimed.
#[verifier::external_body]
fn keyring_set(e: &mut KeyringEntry, password: &str) -> (r: Result<(), String>)
    ensures
        final(e).service() == old(e).service(),
        final(e).user() == old(e).user(),
        final(e).written() == Some(password@),
        final(e).last_read() == old(e).last_read(),
        final(e).delete_asked() == old(e).delete_asked(),
{
    e.written = Ghost(Some(password@));
    e.entry.set_password(password).map_err(|err| err.to_string())
}

/// `keyring::Entry::delete_credential` on the entry: `Ok(true)` when
/// deleted, `Ok(false)` when there was no entry (`keyring::Error::NoEntry`),
/// otherwise the error's text. The entry records that it was asked; which
/// answer comes back is outside this program and not claimed.
#[verifier::external_body]
fn keyring_delete(e: &mut KeyringEntry) -> (r: Result<bool, String>)
    ensures
        final(e).service() == old(e).service(),
        final(e).user() == old(e).user(),
        final(e).written() == old(e).written(),
        final(e).last_read() == old(e).last_read(),
        final(e).delete_asked(),
{
    e.deleted = Ghost(true);
    match e.entry.delete_credential() {
        Ok(()) => Ok(true),
        Err(keyring::Error::NoEntry) => Ok(false),
        Err(err) => Err(err.to_string()),
    }
}

/// The keyring error for a vendor: it points at the environment variable.
fn keyring_error(vendor: &Vendor, detail: String) -> (r: SecretError)
    ensures
        r matches SecretError::Keyring { env_var, detail: d } && env_var@ == vendor.api_key_env@
            && d@ == detail@,
{
    SecretError::Keyring { env_var: String::from_str(vendor.api_key_env), detail }
}

/// The keyring entry of a vendor: its id under the service `SERVICE`.
pub fn entry(vendor: &Vendor) -> (r: Result<KeyringEntry, SecretError>)
    ensures
        match r {
            Ok(e) => e.service() == SERVICE@ && e.user() == vendor.id@ && e.written() is None,
            Err(e) => e matches SecretError::Keyring { env_var, .. } && env_var@ == vendor.api_key_env@,
        },
{
    match KeyringEntry::open(SERVICE, vendor.id) {
        Ok(e) => Ok(e),
        Err(detail) => Err(keyring_error(vendor, detail)),
    }
}

/// A message from the keyring, unless it mentions `key`: keys are never
/// logged, so such a message is withheld.
pub open spec fn without_key(detail: Seq<char>, key: Seq<char>) -> Seq<char> {
    if key.len() == 0 || !contains(detail, key) {
        detail
    } else if !contains(WITHHELD@, key) {
        WITHHELD@
    } else {
        seq![]
    }
}

/// What is shown in place of a keyring message that mentions the key.
pub const WITHHELD: &'static str = "the keyring's message mentioned the key and was withheld";

/// `without_key` as an executable function.
fn strip_key(detail: String, key: &str) -> (r: String)
    ensures
        r@ == without_key(detail@, key@),
        key@.len() > 0 ==> !contains(r@, key@),
{
    if key.is_empty() || !crate::text::str_contains(detail.as_str(), key) {
        return detail;
    }
    if !crate::text::str_contains(WITHHELD, key) {
        return String::from_str(WITHHELD);
    }
    let r = String::new();
    proof {
        if contains(r@, key@) {
            let i = choose|i: int| crate::text::occurs_at(r@, key@, i);
        }
    }
    r
}

/// Hands `key` to an opened entry to store. The entry records that `key`
/// was handed to it; an error names the vendor's environment variable, and
/// its message never holds the key.
pub fn write_key(vendor: &Vendor, e: &mut KeyringEntry, key: &str) -> (r: Result<(), SecretError>)
    ensures
        final(e).service() == old(e).service(),
        final(e).user() == old(e).user(),
        final(e).written() == Some(key@),
        final(e).last_read() == old(e).last_read(),
        final(e).delete_asked() == old(e).delete_asked(),
        r matches Err(err) ==> err matches SecretError::Keyring { env_var, detail } && env_var@
            == vendor.api_key_env@ && (key@.len() > 0 ==> !contains(detail@, key@)),
{
    match keyring_set(e, key) {
        Ok(()) => Ok(()),
        Err(detail) => Err(keyring_error(vendor, strip_key(detail, key))),
    }
}

/// Reads the vendor's key from an opened entry, unless the environment
/// value `from_env` holds one: the entry is read either way, and the key is
/// the environment's when usable, else what the read gave when usable; no
/// key anywhere is reported with both ways to supply one.
pub fn read_key(vendor: &Vendor, e: &mut KeyringEntry, from_env: Option<String>) -> (r: Result<
    (String, Source),
    SecretError,
>)
    ensures
        final(e).service() == old(e).service(),
        final(e).user() == old(e).user(),
        final(e).written() == old(e).written(),
        final(e).delete_asked() == old(e).delete_asked(),
        final(e).last_read() matches Some(read) && match r {
            Ok((k, s)) => chosen_text(opt_str(from_env), read) == Some((k@, s)),
            Err(SecretError::Missing { provider, env_var }) => provider@ == vendor.id@ && env_var@
                == vendor.api_key_env@ && chosen_text(opt_str(from_env), read) is None,
            Err(SecretError::Keyring { .. }) => false,
        },
{
    let from_keyring = keyring_get(e);
    match resolve(from_env, from_keyring) {
        Some(found) => Ok(found),
        None => Err(
            SecretError::Missing {
                provider: String::from_str(vendor.id),
                env_var: String::from_str(vendor.api_key_env),
            },
        ),
    }
}

/// The key for a vendor, and where it was found. `from_env` is the value of
/// the vendor's environment variable. The environment wins over the keyring,
/// a blank value counts as unset, an unusable keyring is an error, and no key
/// anywhere is reported with both ways to supply one.
pub fn key_for(vendor: &Vendor, from_env: Option<String>) -> (r: Result<(String, Source), SecretError>)
    ensures
        match r {
            Ok((k, s)) => exists|read: Option<Seq<char>>| chosen_text(opt_str(from_env), read) == Some((k@, s)),
            Err(SecretError::Missing { provider, env_var }) => provider@ == vendor.id@ && env_var@
                == vendor.api_key_env@ && !usable(from_env),
            Err(SecretError::Keyring { env_var, .. }) => env_var@ == vendor.api_key_env@,
        },
{
    let mut e = entry(vendor)?;
    read_key(vendor, &mut e, from_env)
}

/// Where the key for a vendor would come from, if there is one.
pub fn source_for(vendor: &Vendor, from_env: Option<String>) -> (r: Option<Source>)
    ensures
        usable(from_env) ==> r == Some(Source::Environment) || r is None,
        !usable(from_env) ==> r != Some(Source::Environment),
{
    match key_for(vendor, from_env) {
        Ok((_, source)) => Some(source),
        Err(_) => None,
    }
}

/// Keeps a key in the system keyring, in the vendor's entry. An error names
/// the vendor's environment variable, and its message never holds the key.
pub fn store(vendor: &Vendor, key: &str) -> (r: Result<(), SecretError>)
    ensures
        r matches Err(e) ==> e matches SecretError::Keyring { env_var, detail } && env_var@
            == vendor.api_key_env@ && (key@.len() > 0 ==> !contains(detail@, key@)),
{
    let mut e = match KeyringEntry::open(SERVICE, vendor.id) {
        Ok(e) => e,
        Err(detail) => {
            return Err(keyring_error(vendor, strip_key(detail, key)));
        },
    };
    write_key(vendor, &mut e, key)
}

/// Asks an opened entry to delete its password; a password that was not
/// there is not an error, and any other failure names the vendor's
/// environment variable.
pub fn remove_key(vendor: &Vendor, e: &mut KeyringEntry) -> (r: Result<(), SecretError>)
    ensures
        final(e).service() == old(e).service(),
        final(e).user() == old(e).user(),
        final(e).written() == old(e).written(),
        final(e).delete_asked(),
        r matches Err(err) ==> err matches SecretError::Keyring { env_var, .. } && env_var@
            == vendor.api_key_env@,
{
    match keyring_delete(e) {
        Ok(_) => Ok(()),
        Err(detail) => Err(keyring_error(vendor, detail)),
    }
}

/// Removes a key from the system keyring; a key that was not there is not
/// an error.
pub fn forget(vendor: &Vendor) -> (r: Result<(), SecretError>)
    ensures
        r matches Err(e) ==> e matches SecretError::Keyring { env_var, .. } && env_var@
            == vendor.api_key_env@,
{
    let mut e = entry(vendor)?;
    remove_key(vendor, &mut e)
}

} // verus!
