use vstd::prelude::*;
use crate::credential::{credential_error, Credential, CredentialView};
use crate::error::TotpError;
use crate::otp::{seconds_remaining, totp_spec};
use crate::registry::{as_map, entry_views, Registry};
use crate::uri::{has_otpauth_prefix, is_otpauth, parse_otpauth, parse_spec};

verus! {

/// The name and credential that `add` would store: those of the URI when `key`
/// is an `otpauth://` URI, else `key` as the secret with the given fields.
pub open spec fn resolve_spec(name: Seq<char>, key: Seq<char>, digits: u32, period: u32) -> Result<
    (Seq<char>, CredentialView),
    TotpError,
> {
    if has_otpauth_prefix(key) {
        parse_spec(key)
    } else {
        Ok((name, CredentialView { secret: key, digits, period }))
    }
}

/// The registry after `add`, and its result: the name stored, or the error.
pub open spec fn add_spec(
    m: Map<Seq<char>, CredentialView>,
    name: Seq<char>,
    key: Seq<char>,
    digits: u32,
    period: u32,
) -> (Map<Seq<char>, CredentialView>, Result<Seq<char>, TotpError>) {
    match resolve_spec(name, key, digits, period) {
        Err(e) => (m, Err(e)),
        Ok((n, c)) => if credential_error(c) is Some {
            (m, Err(credential_error(c)->Some_0))
        } else if m.contains_key(n) {
            (m, Err(TotpError::DuplicateName))
        } else {
            (m.insert(n, c), Ok(n))
        },
    }
}

/// What importing one line does.
#[derive(Debug, Clone, Copy, PartialEq, Eq, Structural)]
pub enum ImportOutcome {
    /// The line is not an `otpauth://` URI and was passed over.
    Skipped,
    /// The line's credential was stored.
    Added,
    /// The line was not stored, for this reason.
    Failed(TotpError),
}

/// One line of import against the registry `m`: its new state and the outcome.
pub open spec fn import_step(m: Map<Seq<char>, CredentialView>, line: Seq<char>) -> (
    Map<Seq<char>, CredentialView>,
    ImportOutcome,
) {
    if !has_otpauth_prefix(line) {
        (m, ImportOutcome::Skipped)
    } else {
        match parse_spec(line) {
            Err(e) => (m, ImportOutcome::Failed(e)),
            Ok((n, c)) => if credential_error(c) is Some {
                (m, ImportOutcome::Failed(credential_error(c)->Some_0))
            } else if m.contains_key(n) {
                (m, ImportOutcome::Failed(TotpError::DuplicateName))
            } else {
                (m.insert(n, c), ImportOutcome::Added)
            },
        }
    }
}

/// The registry after importing `lines` one after the other into `m`.
pub open spec fn import_fold(m: Map<Seq<char>, CredentialView>, lines: Seq<Seq<char>>) -> Map<
    Seq<char>,
    CredentialView,
>
    decreases lines.len(),
{
    if lines.len() == 0 {
        m
    } else {
        import_step(import_fold(m, lines.drop_last()), lines.last()).0
    }
}

/// The plain values of a list of lines.
pub open spec fn line_views(lines: Seq<String>) -> Seq<Seq<char>> {
    lines.map_values(|s: String| s@)
}

/// One row of a listing: a name, its current code and the seconds left in
/// the current step (`None` when the period is zero).
pub struct ListEntry {
    pub name: String,
    pub code: Result<String, TotpError>,
    pub remaining: Option<u64>,
}

/// Adding the same credential twice: the second call fails with
/// `DuplicateName` and leaves the registry as the first call left it.
pub proof fn lemma_add_twice(
    m: Map<Seq<char>, CredentialView>,
    name: Seq<char>,
    key: Seq<char>,
    digits: u32,
    period: u32,
)
    requires
        add_spec(m, name, key, digits, period).1 is Ok,
    ensures
        add_spec(add_spec(m, name, key, digits, period).0, name, key, digits, period) == (
            add_spec(m, name, key, digits, period).0,
            Err::<Seq<char>, TotpError>(TotpError::DuplicateName),
        ),
{
}

impl Registry {
    /// Adds a credential: from an `otpauth://` URI in `key`, whose name and
    /// fields are used instead of the given ones, or with `key` as the
    /// Base32 secret. A credential that cannot give codes is refused, as is
    /// a name already taken. Returns the name stored.
    pub fn add(&mut self, name: String, key: &str, digits: u32, period: u32) -> (r: Result<String, TotpError>)
        requires
            old(self).wf(),
        ensures
            final(self).wf(),
            final(self)@ == add_spec(old(self)@, name@, key@, digits, period).0,
            match r {
                Ok(n) => add_spec(old(self)@, name@, key@, digits, period).1 == Ok::<Seq<char>, TotpError>(n@),
                Err(e) => add_spec(old(self)@, name@, key@, digits, period).1 == Err::<Seq<char>, TotpError>(e),
            },
    {
        let (n, c) = if is_otpauth(key) {
            match parse_otpauth(key) {
                Ok(p) => p,
                Err(e) => return Err(e),
            }
        } else {
            (name, Credential::new(key.to_owned(), digits, period))
        };
        if let Err(e) = c.validate() {
            return Err(e);
        }
        let stored = n.clone();
        match self.insert(n, c) {
            Ok(()) => Ok(stored),
            Err(e) => Err(e),
        }
    }

    /// The current TOTP code of the credential stored under `name`.
    pub fn get_code(&self, name: &str, now: u64) -> (r: Result<String, TotpError>)
        requires
            self.wf(),
        ensures
            !self@.contains_key(name@) ==> r == Err::<String, TotpError>(TotpError::NotFound),
            self@.contains_key(name@) ==> match r {
                Ok(s) => totp_spec(self@[name@].secret, self@[name@].digits, self@[name@].period as u64, now)
                    == Ok::<Seq<char>, TotpError>(s@),
                Err(e) => totp_spec(self@[name@].secret, self@[name@].digits, self@[name@].period as u64, now)
                    == Err::<Seq<char>, TotpError>(e),
            },
    {
        match self.get(name) {
            None => Err(TotpError::NotFound),
            Some(c) => c.get_totp(now),
        }
    }

    /// A row for every stored credential, in stored order.
    pub fn list(&self, now: u64) -> (r: Vec<ListEntry>)
        requires
            self.wf(),
        ensures
            r@.len() == self.snapshot().len(),
            forall|i: int|
                0 <= i < r@.len() ==> {
                    let (n, c) = #[trigger] self.snapshot()[i];
                    &&& r@[i].name@ == n
                    &&& match r@[i].code {
                        Ok(s) => totp_spec(c.secret, c.digits, c.period as u64, now) == Ok::<Seq<char>, TotpError>(
                            s@,
                        ),
                        Err(e) => totp_spec(c.secret, c.digits, c.period as u64, now) == Err::<
                            Seq<char>,
                            TotpError,
                        >(e),
                    }
                    &&& r@[i].remaining == if c.period == 0 {
                        None::<u64>
                    } else {
                        Some((c.period - now % (c.period as u64)) as u64)
                    }
                },
    {
        let es = self.entries();
        let mut out: Vec<ListEntry> = Vec::new();
        let mut i: usize = 0;
        while i < es.len()
            invariant
                entry_views(es@) == self.snapshot(),
                i <= es@.len(),
                out@.len() == i,
                forall|j: int|
                    0 <= j < i ==> {
                        let (n, c) = #[trigger] self.snapshot()[j];
                        &&& out@[j].name@ == n
                        &&& match out@[j].code {
                            Ok(s) => totp_spec(c.secret, c.digits, c.period as u64, now) == Ok::<
                                Seq<char>,
                                TotpError,
                            >(s@),
                            Err(e) => totp_spec(c.secret, c.digits, c.period as u64, now) == Err::<
                                Seq<char>,
                                TotpError,
                            >(e),
                        }
                        &&& out@[j].remaining == if c.period == 0 {
                            None::<u64>
                        } else {
                            Some((c.period - now % (c.period as u64)) as u64)
                        }
                    },
            decreases es@.len() - i,
        {
            let c = &es[i].1;
            let remaining = if c.period == 0 {
                None
            } else {
                Some(seconds_remaining(c.period as u64, now))
            };
            out.push(ListEntry { name: es[i].0.clone(), code: c.get_totp(now), remaining });
            i = i + 1;
        }
        out
    }

    /// Imports every `otpauth://` line in turn. A line that fails (bad URI,
    /// credential that cannot give codes, taken name) is reported and passed over; every other line is stored,
    /// whatever comes before or after it. Returns one outcome per line.
    pub fn import(&mut self, lines: &Vec<String>) -> (r: Vec<ImportOutcome>)
        requires
            old(self).wf(),
        ensures
            final(self).wf(),
            final(self)@ == import_fold(old(self)@, line_views(lines@)),
            r@.len() == lines@.len(),
            forall|i: int|
                0 <= i < r@.len() ==> #[trigger] r@[i] == import_step(
                    import_fold(old(self)@, line_views(lines@).take(i)),
                    line_views(lines@)[i],
                ).1,
    {
        let ghost m0 = self@;
        let ghost lv = line_views(lines@);
        let mut out: Vec<ImportOutcome> = Vec::new();
        let mut i: usize = 0;
        assert(lv.take(0) =~= Seq::<Seq<char>>::empty());
        while i < lines.len()
            invariant
                lv == line_views(lines@),
                i <= lines@.len(),
                self.wf(),
                self@ == import_fold(m0, lv.take(i as int)),
                out@.len() == i,
                forall|j: int|
                    0 <= j < i ==> #[trigger] out@[j] == import_step(import_fold(m0, lv.take(j)), lv[j]).1,
            decreases lines@.len() - i,
        {
            let line = lines[i].as_str();
            assert(lv.take(i + 1).drop_last() =~= lv.take(i as int));
            let outcome = if !is_otpauth(line) {
                ImportOutcome::Skipped
            } else {
                match parse_otpauth(line) {
                    Err(e) => ImportOutcome::Failed(e),
                    Ok((n, c)) => match c.validate() {
                        Err(e) => ImportOutcome::Failed(e),
                        Ok(()) => match self.insert(n, c) {
                            Ok(()) => ImportOutcome::Added,
                            Err(e) => ImportOutcome::Failed(e),
                        },
                    },
                }
            };
            out.push(outcome);
            i = i + 1;
        }
        assert(lv.take(i as int) =~= lv);
        out
    }
}

} // verus!
