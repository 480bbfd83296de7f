//! Variables of the two scopes, their identities, the protected-name policy and
//! the meaning of a backend's answers.

use vstd::prelude::*;

use crate::text::{
    chars_of, equals_str, find_from, first_from, lemma_first_from, lemma_first_from_skip, string_of,
    to_upper, upper_of,
};

verus! {

/// Whether a variable lives in the per-user or in the machine-wide store.
#[derive(Clone, Copy, Debug, PartialEq, Eq, Hash, Structural)]
pub enum Scope {
    User,
    System,
}

/// The tag that names a scope in identities and snapshots.
pub open spec fn tag_of(scope: Scope) -> Seq<char> {
    match scope {
        Scope::User => seq!['u', 's', 'e', 'r'],
        Scope::System => seq!['s', 'y', 's', 't', 'e', 'm'],
    }
}

/// The scope a tag stands for: `user` or `system`; no other tag names a scope.
pub open spec fn scope_of_tag(tag: Seq<char>) -> Option<Scope> {
    if tag == tag_of(Scope::System) {
        Some(Scope::System)
    } else if tag == tag_of(Scope::User) {
        Some(Scope::User)
    } else {
        None
    }
}

impl Scope {
    /// The tag of this scope: `user` or `system`.
    pub fn tag(&self) -> (r: String)
        ensures
            r@ == tag_of(*self),
    {
        match self {
            Scope::User => {
                let r = String::from_str("user");
                proof {
                    reveal_strlit("user");
                }
                assert(r@ =~= tag_of(Scope::User));
                r
            },
            Scope::System => {
                let r = String::from_str("system");
                proof {
                    reveal_strlit("system");
                }
                assert(r@ =~= tag_of(Scope::System));
                r
            },
        }
    }

    /// The scope named by `tag`, if it names one.
    pub fn from_tag(tag: &str) -> (r: Option<Scope>)
        ensures
            r == scope_of_tag(tag@),
    {
        let t = chars_of(tag);
        let system = Scope::System.tag();
        let user = Scope::User.tag();
        if equals_str(&t, system.as_str()) {
            Some(Scope::System)
        } else if equals_str(&t, user.as_str()) {
            Some(Scope::User)
        } else {
            None
        }
    }
}

/// A variable as listed, created or imported.
#[derive(Debug)]
pub struct EnvironmentVariable {
    pub id: String,
    pub name: String,
    pub value: String,
    pub var_type: Scope,
    pub remark: Option<String>,
    pub created_at: u64,
    pub updated_at: u64,
    pub is_valid: bool,
}

impl Clone for EnvironmentVariable {
    fn clone(&self) -> (r: Self)
        ensures
            r == *self,
    {
        let remark = match &self.remark {
            Some(text) => Some(text.clone()),
            None => None,
        };
        EnvironmentVariable {
            id: self.id.clone(),
            name: self.name.clone(),
            value: self.value.clone(),
            var_type: self.var_type,
            remark,
            created_at: self.created_at,
            updated_at: self.updated_at,
            is_valid: self.is_valid,
        }
    }
}

/// The scope and name that an identity stands for.
#[derive(Debug)]
pub struct VarId {
    pub scope: Scope,
    pub name: String,
}

/// The identity of the variable `name` of `scope`: the scope's tag, `_`, the name.
pub open spec fn id_text(scope: Scope, name: Seq<char>) -> Seq<char> {
    tag_of(scope) + seq!['_'] + name
}

/// What an identity decodes to: the text before the first `_` is the scope's tag,
/// all after it the name; without `_`, or with a tag that names no scope, it
/// decodes to nothing.
pub open spec fn decoded(id: Seq<char>) -> Option<(Scope, Seq<char>)> {
    let k = first_from(id, '_', 0);
    if k < id.len() && scope_of_tag(id.subrange(0, k)) is Some {
        Some((scope_of_tag(id.subrange(0, k))->0, id.subrange(k + 1, id.len() as int)))
    } else {
        None
    }
}

/// Decoding the identity of a variable gives back its scope and name.
pub proof fn lemma_id_round_trip(scope: Scope, name: Seq<char>)
    ensures
        decoded(id_text(scope, name)) == Some((scope, name)),
{
    let id = id_text(scope, name);
    let t = tag_of(scope);
    lemma_first_from_skip(id, '_', 0, t.len() as int);
    assert(id.subrange(0, t.len() as int) =~= t);
    assert(id.subrange(t.len() as int + 1, id.len() as int) =~= name);
}

/// The names whose machine-wide variables can never be deleted, upper-cased.
pub open spec fn is_protected_name(upper: Seq<char>) -> bool {
    ||| upper == "PATH"@
    ||| upper == "PATHEXT"@
    ||| upper == "TEMP"@
    ||| upper == "TMP"@
    ||| upper == "WINDIR"@
    ||| upper == "SYSTEMROOT"@
    ||| upper == "PROGRAMFILES"@
    ||| upper == "PROGRAMFILES(X86)"@
}

/// Errors of the engine's operations.
#[derive(Debug)]
pub enum EnvError {
    /// The identity holds no `_`, or its tag names no scope.
    InvalidId,
    /// No variable of this name in its scope.
    NotFound(String),
    /// A destructive operation on a protected machine-wide variable.
    ProtectedVariable(String),
    /// A malformed snapshot.
    Parse(String),
    /// The scope's store could not be opened, or refused a delete for want of
    /// privilege.
    BackendAccess(Scope),
    /// The backend's write or delete itself failed.
    Write(BackendError),
}

/// How a call of the scoped backend failed.
#[derive(Debug)]
pub enum BackendError {
    NotFound,
    PermissionDenied,
    Other(String),
}

/// Where a backend operation failed: opening the scope's store, or the call itself.
#[derive(Debug)]
pub enum BackendFailure {
    KeyUnavailable(BackendError),
    CallFailed(BackendError),
}

/// The error that a failed read of `target` is reported as: the store could not be
/// opened, or the variable is not there.
pub open spec fn read_failure(target: VarId, f: BackendFailure, e: EnvError) -> bool {
    match f {
        BackendFailure::KeyUnavailable(_) => e == EnvError::BackendAccess(target.scope),
        BackendFailure::CallFailed(_) => e matches EnvError::NotFound(n) && n@ == target.name@,
    }
}

/// The error that a failed write of `target` is reported as: the store could not be
/// opened, or the write itself failed.
pub open spec fn write_failure(target: VarId, f: BackendFailure, e: EnvError) -> bool {
    match f {
        BackendFailure::KeyUnavailable(_) => e == EnvError::BackendAccess(target.scope),
        BackendFailure::CallFailed(b) => e == EnvError::Write(b),
    }
}

/// The error that a failed delete of `target` is reported as: the store could not
/// be opened or privilege is wanting, the variable is not there, or the delete
/// itself failed.
pub open spec fn delete_failure(target: VarId, f: BackendFailure, e: EnvError) -> bool {
    match f {
        BackendFailure::KeyUnavailable(_) => e == EnvError::BackendAccess(target.scope),
        BackendFailure::CallFailed(BackendError::NotFound) => e matches EnvError::NotFound(n)
            && n@ == target.name@,
        BackendFailure::CallFailed(BackendError::PermissionDenied) => e == EnvError::BackendAccess(
            target.scope,
        ),
        BackendFailure::CallFailed(BackendError::Other(m)) => e == EnvError::Write(
            BackendError::Other(m),
        ),
    }
}

/// A listed variable: `entry` is the backend's name and value in `scope`, `now` the
/// time of the listing.
pub open spec fn lists(e: EnvironmentVariable, scope: Scope, entry: (String, String), now: u64) -> bool {
    &&& e.id@ == id_text(scope, entry.0@)
    &&& e.name@ == entry.0@
    &&& e.value@ == entry.1@
    &&& e.var_type == scope
    &&& e.remark is None
    &&& e.created_at == now
    &&& e.updated_at == now
    &&& e.is_valid
}

/// `l` lists the user entries, then the machine-wide ones, in the backend's order.
pub open spec fn is_listing(
    l: Seq<EnvironmentVariable>,
    user: Seq<(String, String)>,
    system: Seq<(String, String)>,
    now: u64,
) -> bool {
    &&& l.len() == user.len() + system.len()
    &&& forall|i: int| 0 <= i < user.len() ==> lists(#[trigger] l[i], Scope::User, user[i], now)
    &&& forall|i: int|
        0 <= i < system.len() ==> lists(#[trigger] l[user.len() + i], Scope::System, system[i], now)
}

/// The identity of the variable `name` of `scope`.
pub fn encode_id(scope: Scope, name: &str) -> (r: String)
    ensures
        r@ == id_text(scope, name@),
{
    let mut r = scope.tag();
    let sep = "_";
    proof {
        reveal_strlit("_");
    }
    r.append(sep);
    r.append(name);
    assert(r@ =~= id_text(scope, name@));
    r
}

/// The scope and name that `id` stands for.
pub fn decode_id(id: &str) -> (r: Result<VarId, EnvError>)
    ensures
        match r {
            Ok(v) => decoded(id@) == Some((v.scope, v.name@)),
            Err(e) => decoded(id@) is None && e == EnvError::InvalidId,
        },
{
    let v = chars_of(id);
    let k = find_from(&v, '_', 0);
    proof {
        lemma_first_from(v@, '_', 0);
    }
    if k == v.len() {
        return Err(EnvError::InvalidId);
    }
    let tag = string_of(&v, 0, k);
    match Scope::from_tag(tag.as_str()) {
        Some(scope) => Ok(VarId { scope, name: string_of(&v, k + 1, v.len()) }),
        None => Err(EnvError::InvalidId),
    }
}

/// Whether deleting the machine-wide variable `name` is refused: its upper-cased
/// form is one of the protected names.
pub fn is_protected(name: &str) -> (r: bool)
    ensures
        r == is_protected_name(upper_of(name@)),
{
    let upper = to_upper(name);
    let u = chars_of(upper.as_str());
    equals_str(&u, "PATH")
        || equals_str(&u, "PATHEXT")
        || equals_str(&u, "TEMP")
        || equals_str(&u, "TMP")
        || equals_str(&u, "WINDIR")
        || equals_str(&u, "SYSTEMROOT")
        || equals_str(&u, "PROGRAMFILES")
        || equals_str(&u, "PROGRAMFILES(X86)")
}

/// One listed variable: `entry` is the backend's name and value in `scope`.
fn listed(scope: Scope, entry: &(String, String), now: u64) -> (r: EnvironmentVariable)
    ensures
        lists(r, scope, *entry, now),
{
    EnvironmentVariable {
        id: encode_id(scope, entry.0.as_str()),
        name: entry.0.clone(),
        value: entry.1.clone(),
        var_type: scope,
        remark: None,
        created_at: now,
        updated_at: now,
        is_valid: true,
    }
}

/// The listing of both scopes: each backend entry tagged with its scope, given its
/// identity and stamped with `now`; the user's entries come first.
pub fn get_environment_variables(
    user: &Vec<(String, String)>,
    system: &Vec<(String, String)>,
    now: u64,
) -> (r: Vec<EnvironmentVariable>)
    ensures
        is_listing(r@, user@, system@, now),
{
    let mut r: Vec<EnvironmentVariable> = Vec::new();
    let mut i: usize = 0;
    while i < user.len()
        invariant
            i <= user.len(),
            r.len() == i,
            forall|k: int| 0 <= k < i ==> lists(#[trigger] r@[k], Scope::User, user@[k], now),
        decreases user.len() - i,
    {
        r.push(listed(Scope::User, &user[i], now));
        i += 1;
    }
    let mut j: usize = 0;
    while j < system.len()
        invariant
            j <= system.len(),
            r.len() == user.len() + j,
            forall|k: int| 0 <= k < user.len() ==> lists(#[trigger] r@[k], Scope::User, user@[k], now),
            forall|k: int|
                0 <= k < j ==> lists(#[trigger] r@[user.len() + k], Scope::System, system@[k], now),
        decreases system.len() - j,
    {
        r.push(listed(Scope::System, &system[j], now));
        j += 1;
    }
    r
}

/// A change made through the backend.
#[derive(Clone, Copy, Debug, PartialEq, Eq, Structural)]
pub enum Change {
    Create,
    Update,
    Delete,
}

/// Whether the change is broadcast to running processes: after a successful update
/// or delete. A create is not broadcast.
pub fn needs_broadcast(change: Change, succeeded: bool) -> (r: bool)
    ensures
        r == (succeeded && change != Change::Create),
{
    succeeded && change != Change::Create
}

/// The variable that an update of `id` writes: `id` decoded.
pub fn plan_update(id: &str) -> (r: Result<VarId, EnvError>)
    ensures
        match r {
            Ok(v) => decoded(id@) == Some((v.scope, v.name@)),
            Err(e) => decoded(id@) is None && e == EnvError::InvalidId,
        },
{
    decode_id(id)
}

/// The scope and name whose deletion the backend is asked for when `id` is
/// deleted: none where `id` decodes to nothing or to a protected machine-wide name.
pub open spec fn delete_target(id: Seq<char>) -> Option<(Scope, Seq<char>)> {
    match decoded(id) {
        None => None,
        Some((scope, name)) => if scope == Scope::System && is_protected_name(upper_of(name)) {
            None
        } else {
            Some((scope, name))
        },
    }
}

/// The backend's contents after a delete of `id`: the one call that a delete makes,
/// when it makes one, removes the target if it succeeds.
pub open spec fn after_delete(
    b: Map<(Scope, Seq<char>), Seq<char>>,
    id: Seq<char>,
    succeeded: bool,
) -> Map<(Scope, Seq<char>), Seq<char>> {
    match delete_target(id) {
        Some(key) => if succeeded {
            b.remove(key)
        } else {
            b
        },
        None => b,
    }
}

/// A delete of a machine-wide variable with a protected name is refused before any
/// call of the backend: whatever the backend holds, it holds it afterwards, and no
/// change is broadcast.
pub proof fn lemma_protected_delete_keeps_backend(
    b: Map<(Scope, Seq<char>), Seq<char>>,
    name: Seq<char>,
    succeeded: bool,
)
    requires
        is_protected_name(upper_of(name)),
    ensures
        delete_target(id_text(Scope::System, name)) is None,
        after_delete(b, id_text(Scope::System, name), succeeded) == b,
{
    lemma_id_round_trip(Scope::System, name);
}

/// The variable that a delete of `id` removes: `id` decoded, unless it is a
/// machine-wide variable with a protected name. Nothing here reads the backend;
/// a backend call is made only with the target returned.
pub fn plan_delete(id: &str) -> (r: Result<VarId, EnvError>)
    ensures
        r is Ok <==> delete_target(id@) is Some,
        r matches Ok(v) ==> delete_target(id@) == Some((v.scope, v.name@)),
        match decoded(id@) {
            None => r matches Err(e) && e == EnvError::InvalidId,
            Some((scope, name)) => if scope == Scope::System && is_protected_name(upper_of(name)) {
                r matches Err(e) && e matches EnvError::ProtectedVariable(n) && n@ == name
            } else {
                r matches Ok(v) && v.scope == scope && v.name@ == name
            },
        },
{
    let target = decode_id(id)?;
    if target.scope == Scope::System && is_protected(target.name.as_str()) {
        return Err(EnvError::ProtectedVariable(target.name));
    }
    Ok(target)
}

/// The value read for `target`, or the error its failure is reported as.
pub fn finish_read(target: &VarId, done: Result<String, BackendFailure>) -> (r: Result<
    String,
    EnvError,
>)
    ensures
        done matches Ok(v) ==> r == Ok::<String, EnvError>(v),
        done matches Err(f) ==> r matches Err(e) && read_failure(*target, f, e),
{
    match done {
        Ok(v) => Ok(v),
        Err(BackendFailure::KeyUnavailable(_)) => Err(EnvError::BackendAccess(target.scope)),
        Err(BackendFailure::CallFailed(_)) => Err(EnvError::NotFound(target.name.clone())),
    }
}

/// The result of writing `variable` to `target`: the variable itself when the
/// backend's write succeeded, else the error its failure is reported as.
pub fn finish_write(
    variable: EnvironmentVariable,
    target: &VarId,
    done: Result<(), BackendFailure>,
) -> (r: Result<EnvironmentVariable, EnvError>)
    ensures
        done is Ok ==> r == Ok::<EnvironmentVariable, EnvError>(variable),
        done matches Err(f) ==> r matches Err(e) && write_failure(*target, f, e),
{
    match done {
        Ok(()) => Ok(variable),
        Err(BackendFailure::KeyUnavailable(_)) => Err(EnvError::BackendAccess(target.scope)),
        Err(BackendFailure::CallFailed(b)) => Err(EnvError::Write(b)),
    }
}

/// The result of deleting `target`: success when the backend's delete succeeded,
/// else the error its failure is reported as.
pub fn finish_delete(target: &VarId, done: Result<(), BackendFailure>) -> (r: Result<(), EnvError>)
    ensures
        done is Ok ==> r is Ok,
        done matches Err(f) ==> r matches Err(e) && delete_failure(*target, f, e),
{
    match done {
        Ok(()) => Ok(()),
        Err(BackendFailure::KeyUnavailable(_)) => Err(EnvError::BackendAccess(target.scope)),
        Err(BackendFailure::CallFailed(BackendError::NotFound)) => Err(
            EnvError::NotFound(target.name.clone()),
        ),
        Err(BackendFailure::CallFailed(BackendError::PermissionDenied)) => Err(
            EnvError::BackendAccess(target.scope),
        ),
        Err(BackendFailure::CallFailed(BackendError::Other(m))) => Err(
            EnvError::Write(BackendError::Other(m)),
        ),
    }
}

/// The variable that creating `variable` writes: its scope and name.
pub fn create_target(variable: &EnvironmentVariable) -> (r: VarId)
    ensures
        r.scope == variable.var_type,
        r.name == variable.name,
{
    VarId { scope: variable.var_type, name: variable.name.clone() }
}

} // verus!
