//! The hook manager: registries of changeset and file hooks, the hooks bound
//! to each bookmark, and the evaluation of those hooks on a changeset.
use crate::bypass::{config_bypassed, is_config_bypassed, pushvars_view, HookConfig, PushVar};
use crate::cache::{
    cached_verdict, key_weight, lemma_cached_verdict, lookup, value_weight, CacheEntry, VerdictCache,
};
use crate::hook::{ChangesetHookExecutionID, FileHookExecutionID, Hook, HookChangeset, HookContext, HookFile};
use crate::stores::{ChangesetInfo, ChangesetStore, FileContentStore};
use crate::text::utf8_decode;
use crate::types::{ChangedFileType, ErrorKind, HgChangesetId, HookExecution};
use vstd::prelude::*;
use vstd::utf8::*;

verus! {

/// A hook body registered under a name, with its configuration.
pub struct RegisteredHook<H> {
    pub name: String,
    pub hook: H,
    pub config: HookConfig,
}

pub open spec fn is_registered<H>(hooks: Seq<RegisteredHook<H>>, n: Seq<char>) -> bool {
    exists|j: int| 0 <= j < hooks.len() && (#[trigger] hooks[j]).name@ == n
}

/// Where the hook called `n` stands; meaningful where it is registered.
pub open spec fn hook_pos<H>(hooks: Seq<RegisteredHook<H>>, n: Seq<char>) -> int {
    choose|j: int| 0 <= j < hooks.len() && (#[trigger] hooks[j]).name@ == n
}

pub open spec fn unique_hook_names<H>(hooks: Seq<RegisteredHook<H>>) -> bool {
    forall|i: int, j: int|
        0 <= i < hooks.len() && 0 <= j < hooks.len() && i != j ==> (#[trigger] hooks[i]).name@
            != (#[trigger] hooks[j]).name@
}

pub open spec fn names_contain(s: Seq<String>, n: Seq<char>) -> bool {
    exists|j: int| 0 <= j < s.len() && (#[trigger] s[j])@ == n
}

pub open spec fn unique_names(s: Seq<String>) -> bool {
    forall|i: int, j: int| 0 <= i < s.len() && 0 <= j < s.len() && i != j ==> (#[trigger] s[i])@ != (#[trigger] s[j])@
}

/// `s` without repeated names, each kept where it first occurs.
pub open spec fn dedup(s: Seq<String>) -> Seq<String>
    decreases s.len(),
{
    if s.len() == 0 {
        s
    } else {
        let d = dedup(s.drop_last());
        if names_contain(d, s.last()@) {
            d
        } else {
            d.push(s.last())
        }
    }
}

/// The hooks bound to `bookmark` by the latest binding of it.
pub open spec fn binding_of(bindings: Seq<(String, Vec<String>)>, bookmark: Seq<char>) -> Option<
    Seq<String>,
>
    decreases bindings.len(),
{
    if bindings.len() == 0 {
        None
    } else if bindings.last().0@ == bookmark {
        Some(bindings.last().1@)
    } else {
        binding_of(bindings.drop_last(), bookmark)
    }
}

proof fn lemma_binding_from(bindings: Seq<(String, Vec<String>)>, bookmark: Seq<char>)
    ensures
        binding_of(bindings, bookmark) matches Some(v) ==> exists|i: int|
            0 <= i < bindings.len() && (#[trigger] bindings[i]).1@ == v,
    decreases bindings.len(),
{
    if bindings.len() > 0 {
        lemma_binding_from(bindings.drop_last(), bookmark);
        if binding_of(bindings.drop_last(), bookmark) is Some && bindings.last().0@ != bookmark {
            let i = choose|i: int|
                0 <= i < bindings.drop_last().len() && (#[trigger] bindings.drop_last()[i]).1@
                    == binding_of(bindings.drop_last(), bookmark)->Some_0;
            assert(bindings[i] == bindings.drop_last()[i]);
        }
        if bindings.last().0@ == bookmark {
            assert(bindings[bindings.len() - 1] == bindings.last());
        }
    }
}

/// The first of `names` that is not registered, if any.
pub open spec fn first_unregistered<H>(names: Seq<String>, hooks: Seq<RegisteredHook<H>>) -> Option<
    int,
> {
    if forall|k: int| 0 <= k < names.len() ==> is_registered(hooks, #[trigger] names[k]@) {
        None
    } else {
        Some(
            choose|k: int|
                0 <= k < names.len() && !is_registered(hooks, #[trigger] names[k]@) && forall|
                    k2: int,
                | 0 <= k2 < k ==> is_registered(hooks, #[trigger] names[k2]@),
        )
    }
}

/// The names, in binding order, of the registered hooks that are not
/// bypassed for this commit message and push.
pub open spec fn surviving<H>(
    names: Seq<String>,
    hooks: Seq<RegisteredHook<H>>,
    msg: Seq<char>,
    pushvars: Option<Seq<PushVar>>,
) -> Seq<Seq<char>>
    decreases names.len(),
{
    if names.len() == 0 {
        Seq::empty()
    } else {
        let rest = surviving(names.drop_last(), hooks, msg, pushvars);
        let n = names.last()@;
        if config_bypassed(hooks[hook_pos(hooks, n)].config, msg, pushvars) {
            rest
        } else {
            rest.push(n)
        }
    }
}

/// The snapshot that evaluation builds of changeset `id`, or why it cannot.
pub open spec fn snapshot_outcome<S: ChangesetStore>(
    store: S,
    id: HgChangesetId,
    r: Result<HookChangeset, ErrorKind>,
) -> bool {
    match store.changeset(id) {
        None => r == Err::<HookChangeset, ErrorKind>(ErrorKind::NoSuchChangeset(id)),
        Some(info) => if !valid_utf8(info.user@) {
            r matches Err(ErrorKind::InvalidUtf8(f)) && f@ == "author"@
        } else if !valid_utf8(info.comments@) {
            r matches Err(ErrorKind::InvalidUtf8(f)) && f@ == "comments"@
        } else {
            r matches Ok(hcs) && snapshot_of(hcs, info, id)
        },
    }
}

/// `hcs` is what hooks see of the stored changeset `info`.
pub open spec fn snapshot_of(hcs: HookChangeset, info: ChangesetInfo, id: HgChangesetId) -> bool {
    &&& hcs.author@ == decode_utf8(info.user@)
    &&& hcs.comments@ == decode_utf8(info.comments@)
    &&& hcs.parents == info.parents
    &&& hcs.changeset_id == id
    &&& hcs.files@.len() == info.files@.len()
    &&& forall|i: int|
        0 <= i < hcs.files@.len() ==> (#[trigger] hcs.files@[i]).path@ == info.files@[i].0@
            && hcs.files@[i].ty == info.files@[i].1 && hcs.files@[i].changeset_id == id
}

/// Finds the hook called `name`.
fn find_hook<H>(hooks: &Vec<RegisteredHook<H>>, name: &String) -> (r: Option<usize>)
    ensures
        match r {
            Some(i) => i < hooks@.len() && hooks@[i as int].name@ == name@,
            None => !is_registered(hooks@, name@),
        },
{
    let mut i: usize = 0;
    while i < hooks.len()
        invariant
            i <= hooks@.len(),
            forall|j: int| 0 <= j < i ==> (#[trigger] hooks@[j]).name@ != name@,
        decreases hooks@.len() - i,
    {
        if hooks[i].name == *name {
            return Some(i);
        }
        i = i + 1;
    }
    None
}

proof fn lemma_hook_pos<H>(hooks: Seq<RegisteredHook<H>>, i: int)
    requires
        unique_hook_names(hooks),
        0 <= i < hooks.len(),
    ensures
        hook_pos(hooks, hooks[i].name@) == i,
{
    let n = hooks[i].name@;
    assert(is_registered(hooks, n));
    let j = hook_pos(hooks, n);
    assert(hooks[j].name@ == n);
}

/// Looks up each name; the first that is not registered is an error.
fn resolve_hooks<H>(hooks: &Vec<RegisteredHook<H>>, names: &Vec<String>) -> (r: Result<
    Vec<usize>,
    ErrorKind,
>)
    requires
        unique_hook_names(hooks@),
    ensures
        match first_unregistered(names@, hooks@) {
            Some(k) => r matches Err(e) && e == ErrorKind::NoSuchHook(names@[k]),
            None => r matches Ok(idx) && idx@.len() == names@.len() && forall|k: int|
                0 <= k < idx@.len() ==> idx@[k] < hooks@.len() && #[trigger] idx@[k] == hook_pos(
                    hooks@,
                    names@[k]@,
                ),
        },
{
    let mut idx: Vec<usize> = Vec::new();
    let mut k: usize = 0;
    while k < names.len()
        invariant
            k <= names@.len(),
            unique_hook_names(hooks@),
            idx@.len() == k,
            forall|m: int|
                0 <= m < k ==> idx@[m] < hooks@.len() && #[trigger] idx@[m] == hook_pos(
                    hooks@,
                    names@[m]@,
                ),
            forall|m: int| 0 <= m < k ==> is_registered(hooks@, #[trigger] names@[m]@),
        decreases names@.len() - k,
    {
        match find_hook(hooks, &names[k]) {
            Some(i) => {
                proof {
                    lemma_hook_pos(hooks@, i as int);
                }
                idx.push(i);
            },
            None => {
                proof {
                    let ghost kk = k as int;
                    assert(!forall|m: int|
                        0 <= m < names@.len() ==> is_registered(hooks@, #[trigger] names@[m]@));
                    let c = first_unregistered(names@, hooks@)->Some_0;
                    if c < kk {
                        assert(false);
                    } else if c > kk {
                        assert(is_registered(hooks@, names@[kk]@));
                    }
                }
                return Err(ErrorKind::NoSuchHook(names[k].clone()));
            },
        }
        k = k + 1;
    }
    Ok(idx)
}

/// Keeps the hooks at `idx` that are not bypassed.
fn filter_bypassed_hooks<H>(
    hooks: &Vec<RegisteredHook<H>>,
    names: Ghost<Seq<String>>,
    idx: &Vec<usize>,
    commit_msg: &String,
    maybe_pushvars: Option<&Vec<PushVar>>,
) -> (r: Vec<usize>)
    requires
        idx@.len() == names@.len(),
        forall|k: int|
            0 <= k < idx@.len() ==> idx@[k] < hooks@.len() && #[trigger] idx@[k] == hook_pos(
                hooks@,
                names@[k]@,
            ) && hooks@[idx@[k] as int].name@ == names@[k]@,
    ensures
        r@.len() == surviving(names@, hooks@, commit_msg@, pushvars_view(maybe_pushvars)).len(),
        forall|m: int|
            0 <= m < r@.len() ==> r@[m] < hooks@.len() && hooks@[#[trigger] r@[m] as int].name@
                == surviving(names@, hooks@, commit_msg@, pushvars_view(maybe_pushvars))[m],
{
    let ghost vars = pushvars_view(maybe_pushvars);
    let mut kept: Vec<usize> = Vec::new();
    let mut k: usize = 0;
    while k < idx.len()
        invariant
            k <= idx@.len(),
            idx@.len() == names@.len(),
            vars == pushvars_view(maybe_pushvars),
            forall|k: int|
                0 <= k < idx@.len() ==> idx@[k] < hooks@.len() && #[trigger] idx@[k] == hook_pos(
                    hooks@,
                    names@[k]@,
                ) && hooks@[idx@[k] as int].name@ == names@[k]@,
            kept@.len() == surviving(names@.subrange(0, k as int), hooks@, commit_msg@, vars).len(),
            forall|m: int|
                0 <= m < kept@.len() ==> kept@[m] < hooks@.len() && hooks@[#[trigger] kept@[m] as int].name@
                    == surviving(names@.subrange(0, k as int), hooks@, commit_msg@, vars)[m],
        decreases idx@.len() - k,
    {
        let i = idx[k];
        let ghost pre = names@.subrange(0, k as int);
        let ghost next = names@.subrange(0, k + 1);
        proof {
            assert(next.drop_last() =~= pre);
            assert(next.last() == names@[k as int]);
            assert(hook_pos(hooks@, names@[k as int]@) == i);
        }
        let b = is_config_bypassed(&hooks[i].config, commit_msg, maybe_pushvars);
        proof {
            assert(next.len() > 0);
            assert(hooks@[hook_pos(hooks@, next.last()@)] == hooks@[i as int]);
            assert(b == config_bypassed(hooks@[hook_pos(hooks@, next.last()@)].config, commit_msg@, vars));
        }
        if !b {
            kept.push(i);
            proof {
                assert(surviving(next, hooks@, commit_msg@, vars) == surviving(pre, hooks@, commit_msg@, vars).push(names@[k as int]@));
            }
        } else {
            proof {
                assert(surviving(next, hooks@, commit_msg@, vars) == surviving(pre, hooks@, commit_msg@, vars));
            }
        }
        k = k + 1;
    }
    proof {
        assert(names@.subrange(0, k as int) =~= names@);
    }
    kept
}

/// Removes repeated names, keeping each where it first occurs.
fn dedup_names(names: Vec<String>) -> (r: Vec<String>)
    ensures
        r@ == dedup(names@),
{
    let mut out: Vec<String> = Vec::new();
    let mut k: usize = 0;
    while k < names.len()
        invariant
            k <= names@.len(),
            out@ == dedup(names@.subrange(0, k as int)),
        decreases names@.len() - k,
    {
        proof {
            assert(names@.subrange(0, k + 1).drop_last() =~= names@.subrange(0, k as int));
        }
        let mut seen = false;
        let mut j: usize = 0;
        while j < out.len()
            invariant
                j <= out@.len(),
                k < names@.len(),
                out@ == dedup(names@.subrange(0, k as int)),
                seen <==> exists|m: int| 0 <= m < j && (#[trigger] out@[m])@ == names@[k as int]@,
            decreases out@.len() - j,
        {
            if out[j] == names[k] {
                seen = true;
            }
            j = j + 1;
        }
        if !seen {
            out.push(names[k].clone());
        }
        k = k + 1;
    }
    proof {
        assert(names@.subrange(0, k as int) =~= names@);
    }
    out
}

proof fn lemma_contain_push(d: Seq<String>, x: String, n: Seq<char>)
    ensures
        names_contain(d.push(x), n) <==> names_contain(d, n) || x@ == n,
{
    if names_contain(d, n) {
        let j = choose|j: int| 0 <= j < d.len() && (#[trigger] d[j])@ == n;
        assert(d.push(x)[j] == d[j]);
    }
    if x@ == n {
        assert(d.push(x)[d.len() as int] == x);
    }
    if names_contain(d.push(x), n) {
        let j = choose|j: int| 0 <= j < d.len() + 1 && (#[trigger] d.push(x)[j])@ == n;
        if j < d.len() {
            assert(d.push(x)[j] == d[j]);
        }
    }
}

proof fn lemma_dedup_unique(s: Seq<String>)
    ensures
        unique_names(dedup(s)),
        forall|n: Seq<char>| names_contain(dedup(s), n) <==> names_contain(s, n),
    decreases s.len(),
{
    if s.len() > 0 {
        let p = s.drop_last();
        lemma_dedup_unique(p);
        let d = dedup(p);
        assert(p.push(s.last()) =~= s);
        assert forall|n: Seq<char>| names_contain(s, n) <==> names_contain(p, n) || s.last()@ == n by {
            lemma_contain_push(p, s.last(), n);
        }
        if names_contain(d, s.last()@) {
            assert(dedup(s) == d);
        } else {
            assert(dedup(s) == d.push(s.last()));
            assert forall|n: Seq<char>| names_contain(dedup(s), n) <==> names_contain(d, n) || s.last()@ == n by {
                lemma_contain_push(d, s.last(), n);
            }
            assert forall|i: int, j: int|
                0 <= i < dedup(s).len() && 0 <= j < dedup(s).len() && i != j implies (#[trigger] dedup(s)[i])@
                    != (#[trigger] dedup(s)[j])@ by {
                if i < d.len() && j < d.len() {
                    assert(dedup(s)[i] == d[i] && dedup(s)[j] == d[j]);
                } else if i < d.len() {
                    assert(dedup(s)[i] == d[i]);
                    if dedup(s)[i]@ == dedup(s)[j]@ {
                        assert(names_contain(d, s.last()@));
                    }
                } else if j < d.len() {
                    assert(dedup(s)[j] == d[j]);
                    if dedup(s)[i]@ == dedup(s)[j]@ {
                        assert(names_contain(d, s.last()@));
                    }
                }
            }
        }
    }
}

/// `new` is `old` with `hook` and `config` registered under `n`, replacing
/// what `n` named before.
pub open spec fn registered_as<H>(
    new: Seq<RegisteredHook<H>>,
    old: Seq<RegisteredHook<H>>,
    n: Seq<char>,
    hook: H,
    config: HookConfig,
) -> bool {
    &&& is_registered(new, n)
    &&& new[hook_pos(new, n)].hook == hook
    &&& new[hook_pos(new, n)].config == config
    &&& forall|m: Seq<char>|
        m != n ==> (is_registered(new, m) == is_registered(old, m) && (is_registered(old, m)
            ==> new[hook_pos(new, m)] == old[hook_pos(old, m)]))
}

fn register<H>(hooks: &mut Vec<RegisteredHook<H>>, entry: RegisteredHook<H>)
    requires
        unique_hook_names(old(hooks)@),
    ensures
        unique_hook_names(final(hooks)@),
        registered_as(final(hooks)@, old(hooks)@, entry.name@, entry.hook, entry.config),
{
    let ghost n = entry.name@;
    let ghost e = entry;
    let ghost o = hooks@;
    match find_hook(hooks, &entry.name) {
        Some(i) => {
            hooks.set(i, entry);
            proof {
                assert forall|a: int, b: int|
                    0 <= a < hooks@.len() && 0 <= b < hooks@.len() && a != b implies (#[trigger] hooks@[a]).name@
                        != (#[trigger] hooks@[b]).name@ by {
                    assert(o[a].name@ != o[b].name@);
                }
                lemma_hook_pos(hooks@, i as int);
                assert(is_registered(hooks@, n));
                assert forall|m: Seq<char>| m != n implies (is_registered(hooks@, m) == is_registered(o, m) && (is_registered(o, m)
                    ==> hooks@[hook_pos(hooks@, m)] == o[hook_pos(o, m)])) by {
                    if is_registered(o, m) {
                        let j = hook_pos(o, m);
                        assert(hooks@[j] == o[j]);
                        lemma_hook_pos(hooks@, j);
                    }
                    if is_registered(hooks@, m) {
                        let j = hook_pos(hooks@, m);
                        assert(hooks@[j] == o[j]);
                    }
                }
            }
        },
        None => {
            hooks.push(entry);
            proof {
                assert forall|a: int, b: int|
                    0 <= a < hooks@.len() && 0 <= b < hooks@.len() && a != b implies (#[trigger] hooks@[a]).name@
                        != (#[trigger] hooks@[b]).name@ by {
                    if a < o.len() && b < o.len() {
                        assert(o[a].name@ != o[b].name@);
                    } else if a < o.len() {
                        assert(o[a] == hooks@[a]);
                    } else {
                        assert(o[b] == hooks@[b]);
                    }
                }
                lemma_hook_pos(hooks@, o.len() as int);
                assert(hooks@[o.len() as int] == e);
                assert forall|m: Seq<char>| m != n implies (is_registered(hooks@, m) == is_registered(o, m) && (is_registered(o, m)
                    ==> hooks@[hook_pos(hooks@, m)] == o[hook_pos(o, m)])) by {
                    if is_registered(o, m) {
                        let j = hook_pos(o, m);
                        assert(hooks@[j] == o[j]);
                        lemma_hook_pos(hooks@, j);
                    }
                    if is_registered(hooks@, m) {
                        let j = hook_pos(hooks@, m);
                        if j < o.len() {
                            assert(hooks@[j] == o[j]);
                        }
                    }
                }
            }
        },
    }
}

/// Non-deleted files of a changeset crossed with surviving hooks: one
/// (path, change kind, hook name) triple per file verdict, files in changeset
/// order.
pub open spec fn file_keys(files: Seq<(Seq<char>, ChangedFileType)>, surv: Seq<Seq<char>>) -> Seq<
    (Seq<char>, ChangedFileType, Seq<char>),
>
    decreases files.len(),
{
    if files.len() == 0 {
        Seq::empty()
    } else {
        let rest = file_keys(files.drop_last(), surv);
        if files.last().1 == ChangedFileType::Deleted {
            rest
        } else {
            rest + surv.map_values(|h: Seq<char>| (files.last().0, files.last().1, h))
        }
    }
}

/// The limits of the verdict cache.
pub struct HookManagerParams {
    pub entrylimit: usize,
    pub weightlimit: usize,
}

/// Owns the hooks, the bookmark bindings, the stores and the verdict cache.
pub struct HookManager<CS, FS, C, F> {
    cache: VerdictCache,
    changeset_hooks: Vec<RegisteredHook<C>>,
    file_hooks: Vec<RegisteredHook<F>>,
    bookmark_hooks: Vec<(String, Vec<String>)>,
    repo_name: String,
    changeset_store: CS,
    content_store: FS,
    fills: u64,
}

impl<
    CS: ChangesetStore,
    FS: FileContentStore,
    C: Hook<HookChangeset, FS>,
    F: Hook<HookFile, FS>,
> HookManager<CS, FS, C, F> {
    pub closed spec fn cache(&self) -> VerdictCache {
        self.cache
    }

    pub closed spec fn changeset_hooks(&self) -> Seq<RegisteredHook<C>> {
        self.changeset_hooks@
    }

    pub closed spec fn file_hooks(&self) -> Seq<RegisteredHook<F>> {
        self.file_hooks@
    }

    pub closed spec fn bindings(&self) -> Seq<(String, Vec<String>)> {
        self.bookmark_hooks@
    }

    pub closed spec fn repo(&self) -> Seq<char> {
        self.repo_name@
    }

    pub closed spec fn changeset_store(&self) -> CS {
        self.changeset_store
    }

    pub closed spec fn content_store(&self) -> FS {
        self.content_store
    }

    /// How many times a file hook was run to fill the cache.
    pub closed spec fn fills(&self) -> nat {
        self.fills as nat
    }

    pub closed spec fn wf(&self) -> bool {
        &&& self.cache.wf()
        &&& unique_hook_names(self.changeset_hooks@)
        &&& unique_hook_names(self.file_hooks@)
        &&& forall|i: int|
            0 <= i < self.bookmark_hooks@.len() ==> unique_names(
                (#[trigger] self.bookmark_hooks@[i]).1@,
            )
    }

    /// Each binding names a hook at most once.
    pub proof fn lemma_bindings_unique(&self, bookmark: Seq<char>)
        requires
            self.wf(),
        ensures
            binding_of(self.bindings(), bookmark) matches Some(v) ==> unique_names(v),
    {
        lemma_binding_from(self.bookmark_hooks@, bookmark);
    }

    /// Everything but the cache and the fill count is the same.
    pub open spec fn same_setup(&self, other: &Self) -> bool {
        &&& self.changeset_hooks() == other.changeset_hooks()
        &&& self.file_hooks() == other.file_hooks()
        &&& self.bindings() == other.bindings()
        &&& self.repo() == other.repo()
        &&& self.changeset_store() == other.changeset_store()
        &&& self.content_store() == other.content_store()
    }

    pub fn new(
        repo_name: String,
        changeset_store: CS,
        content_store: FS,
        hook_manager_params: HookManagerParams,
    ) -> (r: HookManager<CS, FS, C, F>)
        ensures
            r.wf(),
            r.changeset_hooks().len() == 0,
            r.file_hooks().len() == 0,
            r.bindings().len() == 0,
            r.repo() == repo_name@,
            r.changeset_store() == changeset_store,
            r.content_store() == content_store,
            r.fills() == 0,
            r.cache().entries().len() == 0,
            r.cache().entry_limit() == hook_manager_params.entrylimit,
            r.cache().weight_limit() == hook_manager_params.weightlimit,
    {
        HookManager {
            cache: VerdictCache::with_limits(
                hook_manager_params.entrylimit,
                hook_manager_params.weightlimit,
            ),
            changeset_hooks: Vec::new(),
            file_hooks: Vec::new(),
            bookmark_hooks: Vec::new(),
            repo_name,
            changeset_store,
            content_store,
            fills: 0,
        }
    }

    /// Number of file-hook runs made to fill the cache.
    pub fn fill_count(&self) -> (r: u64)
        ensures
            r == self.fills(),
    {
        self.fills
    }

    pub fn register_changeset_hook(&mut self, hook_name: &str, hook: C, config: HookConfig)
        requires
            old(self).wf(),
        ensures
            final(self).wf(),
            registered_as(
                final(self).changeset_hooks(),
                old(self).changeset_hooks(),
                hook_name@,
                hook,
                config,
            ),
            final(self).file_hooks() == old(self).file_hooks(),
            final(self).bindings() == old(self).bindings(),
            final(self).cache() == old(self).cache(),
    {
        let name = hook_name.to_owned();
        register(&mut self.changeset_hooks, RegisteredHook { name, hook, config });
    }

    pub fn register_file_hook(&mut self, hook_name: &str, hook: F, config: HookConfig)
        requires
            old(self).wf(),
        ensures
            final(self).wf(),
            registered_as(
                final(self).file_hooks(),
                old(self).file_hooks(),
                hook_name@,
                hook,
                config,
            ),
            final(self).changeset_hooks() == old(self).changeset_hooks(),
            final(self).bindings() == old(self).bindings(),
            final(self).cache() == old(self).cache(),
    {
        let name = hook_name.to_owned();
        register(&mut self.file_hooks, RegisteredHook { name, hook, config });
    }

    /// Binds the hooks named in `hooks` to `bookmark`, replacing its earlier
    /// binding; a name given twice is bound once.
    pub fn set_hooks_for_bookmark(&mut self, bookmark: String, hooks: Vec<String>)
        requires
            old(self).wf(),
        ensures
            final(self).wf(),
            binding_of(final(self).bindings(), bookmark@) == Some(dedup(hooks@)),
            forall|b: Seq<char>|
                b != bookmark@ ==> binding_of(final(self).bindings(), b) == binding_of(
                    old(self).bindings(),
                    b,
                ),
            final(self).changeset_hooks() == old(self).changeset_hooks(),
            final(self).file_hooks() == old(self).file_hooks(),
            final(self).cache() == old(self).cache(),
    {
        let names = dedup_names(hooks);
        proof {
            lemma_dedup_unique(hooks@);
        }
        self.bookmark_hooks.push((bookmark, names));
        proof {
            assert(self.bookmark_hooks@.drop_last() =~= old(self).bookmark_hooks@);
            assert forall|i: int| 0 <= i < self.bookmark_hooks@.len() implies unique_names(
                (#[trigger] self.bookmark_hooks@[i]).1@,
            ) by {
                if i < old(self).bookmark_hooks@.len() {
                    assert(self.bookmark_hooks@[i] == old(self).bookmark_hooks@[i]);
                }
            }
        }
    }

    /// The names of the changeset hooks, each once.
    pub fn changeset_hook_names(&self) -> (r: Vec<String>)
        requires
            self.wf(),
        ensures
            hook_names(r@, self.changeset_hooks()),
    {
        names_of(&self.changeset_hooks)
    }

    /// The names of the file hooks, each once.
    pub fn file_hook_names(&self) -> (r: Vec<String>)
        requires
            self.wf(),
        ensures
            hook_names(r@, self.file_hooks()),
    {
        names_of(&self.file_hooks)
    }

    fn find_binding(&self, bookmark: &String) -> (r: Option<&Vec<String>>)
        requires
            self.wf(),
        ensures
            match r {
                Some(v) => binding_of(self.bookmark_hooks@, bookmark@) == Some(v@) && unique_names(
                    v@,
                ),
                None => binding_of(self.bookmark_hooks@, bookmark@) is None,
            },
    {
        let mut i: usize = self.bookmark_hooks.len();
        proof {
            assert(self.bookmark_hooks@.subrange(0, i as int) =~= self.bookmark_hooks@);
        }
        while i > 0
            invariant
                self.wf(),
                i <= self.bookmark_hooks@.len(),
                binding_of(self.bookmark_hooks@, bookmark@) == binding_of(
                    self.bookmark_hooks@.subrange(0, i as int),
                    bookmark@,
                ),
            decreases i,
        {
            proof {
                assert(self.bookmark_hooks@.subrange(0, i as int).drop_last()
                    =~= self.bookmark_hooks@.subrange(0, i - 1));
            }
            if self.bookmark_hooks[i - 1].0 == *bookmark {
                proof {
                    assert(unique_names(self.bookmark_hooks@[i - 1].1@));
                }
                return Some(&self.bookmark_hooks[i - 1].1);
            }
            i = i - 1;
        }
        None
    }

    /// Builds what hooks see of changeset `changeset_id`.
    pub fn get_hook_changeset(&self, changeset_id: HgChangesetId) -> (r: Result<
        HookChangeset,
        ErrorKind,
    >)
        ensures
            snapshot_outcome(self.changeset_store(), changeset_id, r),
    {
        let info = match self.changeset_store.get_changeset_by_changesetid(&changeset_id) {
            Some(info) => info,
            None => {
                return Err(ErrorKind::NoSuchChangeset(changeset_id));
            },
        };
        let author = match utf8_decode(&info.user) {
            Some(a) => a,
            None => {
                let f = "author".to_owned();
                proof {
                    reveal_strlit("author");
                }
                return Err(ErrorKind::InvalidUtf8(f));
            },
        };
        let mut files: Vec<HookFile> = Vec::new();
        let mut i: usize = 0;
        while i < info.files.len()
            invariant
                i <= info.files@.len(),
                files@.len() == i,
                forall|j: int|
                    0 <= j < i ==> (#[trigger] files@[j]).path@ == info.files@[j].0@ && files@[j].ty
                        == info.files@[j].1 && files@[j].changeset_id == changeset_id,
            decreases info.files@.len() - i,
        {
            let (path, ty) = &info.files[i];
            files.push(HookFile::new(path.clone(), changeset_id, *ty));
            i = i + 1;
        }
        let comments = match utf8_decode(&info.comments) {
            Some(c) => c,
            None => {
                let f = "comments".to_owned();
                proof {
                    reveal_strlit("comments");
                }
                return Err(ErrorKind::InvalidUtf8(f));
            },
        };
        let parents = info.parents.duplicate();
        Ok(HookChangeset::new(author, files, comments, parents, changeset_id))
    }

    /// Runs the changeset hooks bound to `bookmark` on changeset
    /// `changeset_id`, skipping those bypassed for this push.
    pub fn run_changeset_hooks_for_bookmark(
        &self,
        changeset_id: HgChangesetId,
        bookmark: &String,
        maybe_pushvars: Option<&Vec<PushVar>>,
    ) -> (r: Result<Vec<(ChangesetHookExecutionID, HookExecution)>, ErrorKind>)
        requires
            self.wf(),
        ensures
            changeset_outcome(
                binding_of(self.bindings(), bookmark@),
                self.changeset_hooks(),
                self.changeset_store(),
                changeset_id,
                pushvars_view(maybe_pushvars),
                r,
            ),
    {
        let names = match self.find_binding(bookmark) {
            Some(names) => names,
            None => {
                return Ok(Vec::new());
            },
        };
        let idx = resolve_hooks(&self.changeset_hooks, names)?;
        let hcs = self.get_hook_changeset(changeset_id)?;
        let ghost surv = surviving(
            names@,
            self.changeset_hooks@,
            hcs.comments@,
            pushvars_view(maybe_pushvars),
        );
        proof {
            assert forall|k: int| 0 <= k < idx@.len() implies idx@[k] < self.changeset_hooks@.len() && #[trigger] idx@[k] == hook_pos(self.changeset_hooks@, names@[k]@) && self.changeset_hooks@[idx@[k] as int].name@ == names@[k]@ by {
                assert(is_registered(self.changeset_hooks@, names@[k]@));
            }
        }
        let kept = filter_bypassed_hooks(
            &self.changeset_hooks,
            Ghost(names@),
            &idx,
            &hcs.comments,
            maybe_pushvars,
        );
        let mut run_names: Vec<String> = Vec::new();
        let mut results: Vec<Result<HookExecution, String>> = Vec::new();
        let mut t: usize = 0;
        while t < kept.len()
            invariant
                t <= kept@.len(),
                kept@.len() == surv.len(),
                forall|m: int|
                    0 <= m < kept@.len() ==> kept@[m] < self.changeset_hooks@.len()
                        && self.changeset_hooks@[#[trigger] kept@[m] as int].name@ == surv[m],
                run_names@.len() == t,
                results@.len() == t,
                forall|m: int| 0 <= m < t ==> (#[trigger] run_names@[m])@ == surv[m],
            decreases kept@.len() - t,
        {
            let entry = &self.changeset_hooks[kept[t]];
            let context = HookContext::new(
                entry.name.clone(),
                self.repo_name.clone(),
                entry.config.clone(),
                hcs.clone(),
            );
            results.push(entry.hook.run(&context, &self.content_store));
            run_names.push(entry.name.clone());
            t = t + 1;
        }
        let r = collect_changeset_verdicts(changeset_id, &run_names, &results);
        proof {
            assert(changeset_verdicts(changeset_id, run_names@, results@, r));
            if r is Err {
                let m = choose|m: int|
                    0 <= m < results@.len() && (forall|m2: int|
                        0 <= m2 < m ==> (#[trigger] results@[m2]) is Ok) && (#[trigger] results@[m]) is Err
                        && r == Err::<Vec<(ChangesetHookExecutionID, HookExecution)>, ErrorKind>(
                        ErrorKind::HookRunFailed { hook_name: run_names@[m], cause: results@[m]->Err_0 },
                    );
                assert(run_names@[m]@ == surv[m]);
            }
        }
        r
    }

    /// The verdict of the file hook and file that `key` names: from the
    /// cache where it holds one, else by running the hook, and caching a
    /// verdict it gives.
    pub fn run_file_hook(&mut self, key: &FileHookExecutionID) -> (r: Result<
        HookExecution,
        ErrorKind,
    >)
        requires
            old(self).wf(),
        ensures
            file_verdict_outcome(*old(self), *final(self), *key, r),
    {
        if let Some(v) = self.cache.get(key) {
            return Ok(v);
        }
        let i = match find_hook(&self.file_hooks, &key.hook_name) {
            Some(i) => i,
            None => {
                return Err(ErrorKind::NoSuchHook(key.hook_name.clone()));
            },
        };
        if self.fills < u64::MAX {
            self.fills = self.fills + 1;
        }
        let entry = &self.file_hooks[i];
        let context = HookContext::new(
            entry.name.clone(),
            self.repo_name.clone(),
            entry.config.clone(),
            key.file.duplicate(),
        );
        match entry.hook.run(&context, &self.content_store) {
            Ok(v) => {
                self.cache.insert(key.duplicate(), v.duplicate());
                Ok(v)
            },
            Err(cause) => Err(ErrorKind::HookRunFailed { hook_name: key.hook_name.clone(), cause }),
        }
    }

    /// Runs the file hooks bound to `bookmark` on every file of changeset
    /// `changeset_id` that was not deleted, skipping hooks bypassed for this
    /// push; verdicts come through the cache.
    pub fn run_file_hooks_for_bookmark(
        &mut self,
        changeset_id: HgChangesetId,
        bookmark: &String,
        maybe_pushvars: Option<&Vec<PushVar>>,
    ) -> (r: Result<Vec<(FileHookExecutionID, HookExecution)>, ErrorKind>)
        requires
            old(self).wf(),
        ensures
            final(self).wf(),
            final(self).same_setup(&*old(self)),
            binding_of(old(self).bindings(), bookmark@) is None ==> *final(self) == *old(self),
            final(self).cache().entry_limit() == old(self).cache().entry_limit(),
            final(self).cache().weight_limit() == old(self).cache().weight_limit(),
            file_outcome(
                binding_of(old(self).bindings(), bookmark@),
                old(self).file_hooks(),
                old(self).changeset_store(),
                changeset_id,
                pushvars_view(maybe_pushvars),
                r,
            ),
            cached_outcome(
                binding_of(old(self).bindings(), bookmark@),
                old(self).file_hooks(),
                old(self).changeset_store(),
                changeset_id,
                pushvars_view(maybe_pushvars),
                old(self).cache().entries(),
                r,
            ),
    {
        let names = match self.find_binding(bookmark) {
            Some(names) => names.clone(),
            None => {
                return Ok(Vec::new());
            },
        };
        let idx = resolve_hooks(&self.file_hooks, &names)?;
        let hcs = self.get_hook_changeset(changeset_id)?;
        let ghost hooks0 = self.file_hooks@;
        let ghost surv = surviving(names@, hooks0, hcs.comments@, pushvars_view(maybe_pushvars));
        let ghost info = self.changeset_store.changeset(changeset_id)->Some_0;
        let ghost fv = hcs.files@.map_values(|f: HookFile| (f.path@, f.ty));
        proof {
            assert forall|k: int| 0 <= k < idx@.len() implies idx@[k] < hooks0.len() && #[trigger] idx@[k] == hook_pos(hooks0, names@[k]@) && hooks0[idx@[k] as int].name@ == names@[k]@ by {
                assert(is_registered(hooks0, names@[k]@));
            }
            assert(fv =~= info.files@.map_values(|p: (String, ChangedFileType)| (p.0@, p.1)));
        }
        let kept = filter_bypassed_hooks(
            &self.file_hooks,
            Ghost(names@),
            &idx,
            &hcs.comments,
            maybe_pushvars,
        );
        let ghost e0 = self.cache().entries();
        let ghost all = file_keys(fv, surv);
        let ghost cached = all_cached(e0, changeset_id, all);
        let mut results: Vec<(FileHookExecutionID, Result<HookExecution, ErrorKind>)> = Vec::new();
        let mut fi: usize = 0;
        while fi < hcs.files.len()
            invariant
                fi <= hcs.files@.len(),
                fv == hcs.files@.map_values(|f: HookFile| (f.path@, f.ty)),
                forall|j: int| 0 <= j < hcs.files@.len() ==> (#[trigger] hcs.files@[j]).changeset_id == changeset_id,
                self.wf(),
                self.same_setup(&*old(self)),
                self.file_hooks@ == hooks0,
                self.cache().entry_limit() == old(self).cache().entry_limit(),
                self.cache().weight_limit() == old(self).cache().weight_limit(),
                kept@.len() == surv.len(),
                forall|m: int|
                    0 <= m < kept@.len() ==> kept@[m] < hooks0.len() && hooks0[#[trigger] kept@[m] as int].name@ == surv[m],
                keys_match(results@, file_keys(fv.subrange(0, fi as int), surv), changeset_id),
                e0 == old(self).cache().entries(),
                all == file_keys(fv, surv),
                cached == all_cached(e0, changeset_id, all),
                cached ==> forall|k: FileHookExecutionID| #[trigger] lookup(self.cache().entries(), k) == lookup(e0, k),
                cached ==> forall|m: int| 0 <= m < results@.len() ==> (#[trigger] results@[m]).1 == Ok::<HookExecution, ErrorKind>(cached_verdict(e0, changeset_id, all[m].0, all[m].2)->Some_0),
                forall|m: int| 0 <= m < results@.len() ==> ((#[trigger] results@[m]).1 matches Err(e) ==> run_failure_among(e, surv)),
            decreases hcs.files@.len() - fi,
        {
            let file = &hcs.files[fi];
            let ghost before = file_keys(fv.subrange(0, fi as int), surv);
            proof {
                assert(fv.subrange(0, fi + 1).drop_last() =~= fv.subrange(0, fi as int));
                assert(fv.subrange(0, fi + 1).last() == fv[fi as int]);
            }
            if file.ty != ChangedFileType::Deleted {
                proof {
                    lemma_file_keys_prefix(fv, surv, fi + 1);
                    assert(fv[fi as int] == (file.path@, file.ty));
                    assert(file_keys(fv.subrange(0, fi + 1), surv) == before + surv.map_values(|h: Seq<char>| (file.path@, file.ty, h)));
                }
                let mut t: usize = 0;
                while t < kept.len()
                    invariant
                        t <= kept@.len(),
                        fi < hcs.files@.len(),
                        file == &hcs.files@[fi as int],
                        file.ty != ChangedFileType::Deleted,
                        fv == hcs.files@.map_values(|f: HookFile| (f.path@, f.ty)),
                        forall|j: int| 0 <= j < hcs.files@.len() ==> (#[trigger] hcs.files@[j]).changeset_id == changeset_id,
                        self.wf(),
                        self.same_setup(&*old(self)),
                        self.file_hooks@ == hooks0,
                        self.cache().entry_limit() == old(self).cache().entry_limit(),
                        self.cache().weight_limit() == old(self).cache().weight_limit(),
                        kept@.len() == surv.len(),
                        forall|m: int|
                            0 <= m < kept@.len() ==> kept@[m] < hooks0.len() && hooks0[#[trigger] kept@[m] as int].name@ == surv[m],
                        keys_match(
                            results@,
                            before + surv.subrange(0, t as int).map_values(|h: Seq<char>| (file.path@, file.ty, h)),
                            changeset_id,
                        ),
                        forall|m: int| 0 <= m < results@.len() ==> ((#[trigger] results@[m]).1 matches Err(e) ==> run_failure_among(e, surv)),
                        e0 == old(self).cache().entries(),
                        all == file_keys(fv, surv),
                        cached == all_cached(e0, changeset_id, all),
                        cached ==> forall|k: FileHookExecutionID| #[trigger] lookup(self.cache().entries(), k) == lookup(e0, k),
                        cached ==> forall|m: int| 0 <= m < results@.len() ==> (#[trigger] results@[m]).1 == Ok::<HookExecution, ErrorKind>(cached_verdict(e0, changeset_id, all[m].0, all[m].2)->Some_0),
                        file_keys(fv.subrange(0, fi + 1), surv) == before + surv.map_values(|h: Seq<char>| (file.path@, file.ty, h)),
                        file_keys(fv.subrange(0, fi + 1), surv).len() <= all.len(),
                        forall|m: int| 0 <= m < file_keys(fv.subrange(0, fi + 1), surv).len() ==> #[trigger] file_keys(fv.subrange(0, fi + 1), surv)[m] == all[m],
                    decreases kept@.len() - t,
                {
                    let key = FileHookExecutionID {
                        cs_id: changeset_id,
                        hook_name: self.file_hooks[kept[t]].name.clone(),
                        file: file.duplicate(),
                    };
                    proof {
                        assert(is_registered(self.file_hooks@, key.hook_name@));
                    }
                    proof {
                        let ghost m = results@.len() as int;
                        let ghost nxt = file_keys(fv.subrange(0, fi + 1), surv);
                        assert(nxt[m] == (file.path@, file.ty, surv[t as int]));
                        assert(all[m] == nxt[m]);
                        if cached {
                            lemma_cached_verdict(e0, key);
                            assert(cached_verdict(e0, changeset_id, all[m].0, all[m].2) is Some);
                            assert(lookup(self.cache().entries(), key) == lookup(e0, key));
                        }
                    }
                    let res = self.run_file_hook(&key);
                    proof {
                        let ghost a = before + surv.subrange(0, t as int).map_values(|h: Seq<char>| (file.path@, file.ty, h));
                        let ghost b2 = before + surv.subrange(0, t + 1).map_values(|h: Seq<char>| (file.path@, file.ty, h));
                        assert(b2 =~= a.push((file.path@, file.ty, surv[t as int])));
                        assert(surv[t as int] == key.hook_name@);
                    }
                    results.push((key, res));
                    t = t + 1;
                }
                proof {
                    assert(surv.subrange(0, surv.len() as int) =~= surv);
                    assert(fv[fi as int] == (file.path@, file.ty));
                }
            } else {
                proof {
                    assert(fv[fi as int] == (file.path@, file.ty));
                }
            }
            fi = fi + 1;
        }
        proof {
            assert(fv.subrange(0, fi as int) =~= fv);
        }
        let r = collect_file_verdicts(&results);
        proof {
            assert(file_verdicts(results@, r));
            if r is Err {
                let m = choose|m: int|
                    0 <= m < results@.len() && (forall|m2: int|
                        0 <= m2 < m ==> (#[trigger] results@[m2]).1 is Ok) && (#[trigger] results@[m]).1 is Err
                        && r == Err::<Vec<(FileHookExecutionID, HookExecution)>, ErrorKind>(
                        results@[m].1->Err_0,
                    );
            }
        }
        r
    }
}

/// The ids of `v` name, in order, the (path, change kind, hook name) triples
/// of `keys`, all at changeset `id`.
pub open spec fn keys_match<T>(
    v: Seq<(FileHookExecutionID, T)>,
    keys: Seq<(Seq<char>, ChangedFileType, Seq<char>)>,
    id: HgChangesetId,
) -> bool {
    &&& v.len() == keys.len()
    &&& forall|m: int|
        0 <= m < v.len() ==> (#[trigger] v[m]).0.cs_id == id && v[m].0.file.changeset_id == id
            && v[m].0.file.path@ == keys[m].0 && v[m].0.file.ty == keys[m].1 && v[m].0.hook_name@
            == keys[m].2
}

/// The cache holds a verdict for each key.
pub open spec fn all_cached(
    entries: Seq<CacheEntry>,
    id: HgChangesetId,
    keys: Seq<(Seq<char>, ChangedFileType, Seq<char>)>,
) -> bool {
    forall|m: int| 0 <= m < keys.len() ==> (#[trigger] cached_verdict(entries, id, keys[m].0, keys[m].2)) is Some
}

/// Where the cache holds a verdict for every key that evaluating file hooks
/// asks for, the evaluation succeeds with those verdicts.
pub open spec fn cached_outcome<F, S: ChangesetStore>(
    binding: Option<Seq<String>>,
    hooks: Seq<RegisteredHook<F>>,
    store: S,
    id: HgChangesetId,
    pushvars: Option<Seq<PushVar>>,
    entries: Seq<CacheEntry>,
    r: Result<Vec<(FileHookExecutionID, HookExecution)>, ErrorKind>,
) -> bool {
    match binding {
        None => true,
        Some(names) => match store.changeset(id) {
            Some(info) => {
                let surv = surviving(names, hooks, decode_utf8(info.comments@), pushvars);
                let files = info.files@.map_values(|p: (String, ChangedFileType)| (p.0@, p.1));
                let keys = file_keys(files, surv);
                first_unregistered(names, hooks) is None && valid_utf8(info.user@) && valid_utf8(
                    info.comments@,
                ) && all_cached(entries, id, keys) ==> (r matches Ok(v) && forall|m: int|
                    0 <= m < v@.len() ==> (#[trigger] v@[m]).1 == cached_verdict(
                        entries,
                        id,
                        keys[m].0,
                        keys[m].2,
                    )->Some_0)
            },
            None => true,
        },
    }
}

/// The keys of the first `i` files come first among those of all files.
proof fn lemma_file_keys_prefix(
    files: Seq<(Seq<char>, ChangedFileType)>,
    surv: Seq<Seq<char>>,
    i: int,
)
    requires
        0 <= i <= files.len(),
    ensures
        file_keys(files.subrange(0, i), surv).len() <= file_keys(files, surv).len(),
        forall|m: int|
            0 <= m < file_keys(files.subrange(0, i), surv).len() ==> #[trigger] file_keys(
                files.subrange(0, i),
                surv,
            )[m] == file_keys(files, surv)[m],
    decreases files.len(),
{
    if i == files.len() {
        assert(files.subrange(0, i) =~= files);
    } else {
        lemma_file_keys_prefix(files.drop_last(), surv, i);
        assert(files.drop_last().subrange(0, i) =~= files.subrange(0, i));
    }
}

/// What evaluating file hooks gives: as for changeset hooks, but over one key
/// for each pair of a file that was not deleted and a surviving hook, each
/// with the result that asking the cache for it gave.
pub open spec fn file_outcome<F, S: ChangesetStore>(
    binding: Option<Seq<String>>,
    hooks: Seq<RegisteredHook<F>>,
    store: S,
    id: HgChangesetId,
    pushvars: Option<Seq<PushVar>>,
    r: Result<Vec<(FileHookExecutionID, HookExecution)>, ErrorKind>,
) -> bool {
    match binding {
        None => r matches Ok(v) && v@.len() == 0,
        Some(names) => match first_unregistered(names, hooks) {
            Some(k) => r == Err::<Vec<(FileHookExecutionID, HookExecution)>, ErrorKind>(
                ErrorKind::NoSuchHook(names[k]),
            ),
            None => match store.changeset(id) {
                None => r == Err::<Vec<(FileHookExecutionID, HookExecution)>, ErrorKind>(
                    ErrorKind::NoSuchChangeset(id),
                ),
                Some(info) => if !valid_utf8(info.user@) {
                    r matches Err(ErrorKind::InvalidUtf8(f)) && f@ == "author"@
                } else if !valid_utf8(info.comments@) {
                    r matches Err(ErrorKind::InvalidUtf8(f)) && f@ == "comments"@
                } else {
                    let surv = surviving(names, hooks, decode_utf8(info.comments@), pushvars);
                    let files = info.files@.map_values(|p: (String, ChangedFileType)| (p.0@, p.1));
                    &&& match r {
                        Ok(v) => keys_match(v@, file_keys(files, surv), id),
                        Err(e) => run_failure_among(e, surv),
                    }
                    &&& file_keys(files, surv).len() == 0 ==> (r matches Ok(v) && v@.len() == 0)
                    &&& exists|results: Seq<(FileHookExecutionID, Result<HookExecution, ErrorKind>)>|
                        keys_match(results, file_keys(files, surv), id) && #[trigger] file_verdicts(
                            results,
                            r,
                        )
                },
            },
        },
    }
}

/// What asking for the verdict that `key` names does: a cached verdict is
/// returned as it is, without running the hook; else the hook runs once, and
/// the verdict it gives is cached where it fits.
pub open spec fn file_verdict_outcome<
    CS: ChangesetStore,
    FS: FileContentStore,
    C: Hook<HookChangeset, FS>,
    F: Hook<HookFile, FS>,
>(
    old: HookManager<CS, FS, C, F>,
    new: HookManager<CS, FS, C, F>,
    key: FileHookExecutionID,
    r: Result<HookExecution, ErrorKind>,
) -> bool {
    &&& new.wf()
    &&& new.same_setup(&old)
    &&& new.cache().entry_limit() == old.cache().entry_limit()
    &&& new.cache().weight_limit() == old.cache().weight_limit()
    &&& match lookup(old.cache().entries(), key) {
        Some(v) => {
            &&& r == Ok::<HookExecution, ErrorKind>(v)
            &&& new.fills() == old.fills()
            &&& forall|k: FileHookExecutionID| #[trigger]
                lookup(new.cache().entries(), k) == lookup(old.cache().entries(), k)
        },
        None => if !is_registered(old.file_hooks(), key.hook_name@) {
            &&& r == Err::<HookExecution, ErrorKind>(ErrorKind::NoSuchHook(key.hook_name))
            &&& new.fills() == old.fills()
            &&& new.cache() == old.cache()
        } else {
            &&& new.fills() == (if old.fills() < u64::MAX {
                old.fills() + 1
            } else {
                old.fills()
            })
            &&& match r {
                Ok(v) => key_weight(key) + value_weight(v) <= old.cache().weight_limit()
                    && old.cache().entry_limit() >= 1 ==> lookup(new.cache().entries(), key)
                    == Some(v),
                Err(e) => new.cache() == old.cache() && (e matches ErrorKind::HookRunFailed {
                    hook_name,
                    ..
                } && hook_name@ == key.hook_name@),
            }
        },
    }
}

/// `e` is the failure of a hook body whose name is in `surv`.
pub open spec fn run_failure_among(e: ErrorKind, surv: Seq<Seq<char>>) -> bool {
    exists|m: int|
        0 <= m < surv.len() && (e matches ErrorKind::HookRunFailed { hook_name, .. }
            && hook_name@ == #[trigger] surv[m])
}

/// What evaluating changeset hooks gives: nothing where the bookmark has no
/// binding; else the first unregistered name, a missing or undecodable
/// changeset, or what pairing each surviving hook, in binding order, with the
/// result of its body gives: the first failure, or one verdict per hook.
pub open spec fn changeset_outcome<C, S: ChangesetStore>(
    binding: Option<Seq<String>>,
    hooks: Seq<RegisteredHook<C>>,
    store: S,
    id: HgChangesetId,
    pushvars: Option<Seq<PushVar>>,
    r: Result<Vec<(ChangesetHookExecutionID, HookExecution)>, ErrorKind>,
) -> bool {
    match binding {
        None => r matches Ok(v) && v@.len() == 0,
        Some(names) => match first_unregistered(names, hooks) {
            Some(k) => r == Err::<Vec<(ChangesetHookExecutionID, HookExecution)>, ErrorKind>(
                ErrorKind::NoSuchHook(names[k]),
            ),
            None => match store.changeset(id) {
                None => r == Err::<Vec<(ChangesetHookExecutionID, HookExecution)>, ErrorKind>(
                    ErrorKind::NoSuchChangeset(id),
                ),
                Some(info) => if !valid_utf8(info.user@) {
                    r matches Err(ErrorKind::InvalidUtf8(f)) && f@ == "author"@
                } else if !valid_utf8(info.comments@) {
                    r matches Err(ErrorKind::InvalidUtf8(f)) && f@ == "comments"@
                } else {
                    let surv = surviving(names, hooks, decode_utf8(info.comments@), pushvars);
                    &&& match r {
                        Ok(v) => v@.len() == surv.len() && forall|m: int|
                            0 <= m < v@.len() ==> (#[trigger] v@[m]).0.cs_id == id && v@[m].0.hook_name@
                                == surv[m],
                        Err(e) => run_failure_among(e, surv),
                    }
                    &&& exists|run: Seq<String>, results: Seq<Result<HookExecution, String>>|
                        run.len() == surv.len() && results.len() == surv.len() && (forall|m: int|
                            0 <= m < run.len() ==> (#[trigger] run[m])@ == surv[m])
                            && #[trigger] changeset_verdicts(id, run, results, r)
                },
            },
        },
    }
}

/// What pairing hook names with the results of their bodies gives: the
/// first failure as the error, naming its hook and carrying its message; else
/// each name with its verdict, in order.
pub open spec fn changeset_verdicts(
    cs_id: HgChangesetId,
    names: Seq<String>,
    results: Seq<Result<HookExecution, String>>,
    r: Result<Vec<(ChangesetHookExecutionID, HookExecution)>, ErrorKind>,
) -> bool {
    if forall|m: int| 0 <= m < results.len() ==> (#[trigger] results[m]) is Ok {
        r matches Ok(v) && v@.len() == results.len() && forall|m: int|
            0 <= m < v@.len() ==> (#[trigger] v@[m]).0.cs_id == cs_id && v@[m].0.hook_name
                == names[m] && v@[m].1 == results[m]->Ok_0
    } else {
        exists|m: int|
            0 <= m < results.len() && (forall|m2: int|
                0 <= m2 < m ==> (#[trigger] results[m2]) is Ok) && (#[trigger] results[m]) is Err
                && r == Err::<Vec<(ChangesetHookExecutionID, HookExecution)>, ErrorKind>(
                ErrorKind::HookRunFailed { hook_name: names[m], cause: results[m]->Err_0 },
            )
    }
}

/// Pairs each hook name with the result its body gave.
pub fn collect_changeset_verdicts(
    cs_id: HgChangesetId,
    names: &Vec<String>,
    results: &Vec<Result<HookExecution, String>>,
) -> (r: Result<Vec<(ChangesetHookExecutionID, HookExecution)>, ErrorKind>)
    requires
        names@.len() == results@.len(),
    ensures
        changeset_verdicts(cs_id, names@, results@, r),
{
    let mut out: Vec<(ChangesetHookExecutionID, HookExecution)> = Vec::new();
    let mut m: usize = 0;
    while m < results.len()
        invariant
            m <= results@.len(),
            names@.len() == results@.len(),
            forall|k: int| 0 <= k < m ==> (#[trigger] results@[k]) is Ok,
            out@.len() == m,
            forall|k: int|
                0 <= k < m ==> (#[trigger] out@[k]).0.cs_id == cs_id && out@[k].0.hook_name
                    == names@[k] && out@[k].1 == results@[k]->Ok_0,
        decreases results@.len() - m,
    {
        match &results[m] {
            Ok(v) => {
                let id = ChangesetHookExecutionID { cs_id, hook_name: names[m].clone() };
                out.push((id, v.duplicate()));
            },
            Err(cause) => {
                return Err(
                    ErrorKind::HookRunFailed { hook_name: names[m].clone(), cause: cause.clone() },
                );
            },
        }
        m = m + 1;
    }
    Ok(out)
}

/// What gathering per-key results gives: the first failure as the error;
/// else each key with its verdict, in order.
pub open spec fn file_verdicts(
    results: Seq<(FileHookExecutionID, Result<HookExecution, ErrorKind>)>,
    r: Result<Vec<(FileHookExecutionID, HookExecution)>, ErrorKind>,
) -> bool {
    if forall|m: int| 0 <= m < results.len() ==> (#[trigger] results[m]).1 is Ok {
        r matches Ok(v) && v@.len() == results.len() && forall|m: int|
            0 <= m < v@.len() ==> (#[trigger] v@[m]).0 == results[m].0 && v@[m].1
                == results[m].1->Ok_0
    } else {
        exists|m: int|
            0 <= m < results.len() && (forall|m2: int|
                0 <= m2 < m ==> (#[trigger] results[m2]).1 is Ok) && (#[trigger] results[m]).1 is Err
                && r == Err::<Vec<(FileHookExecutionID, HookExecution)>, ErrorKind>(
                results[m].1->Err_0,
            )
    }
}

/// Pairs each key with the verdict asked for it.
pub fn collect_file_verdicts(
    results: &Vec<(FileHookExecutionID, Result<HookExecution, ErrorKind>)>,
) -> (r: Result<Vec<(FileHookExecutionID, HookExecution)>, ErrorKind>)
    ensures
        file_verdicts(results@, r),
{
    let mut out: Vec<(FileHookExecutionID, HookExecution)> = Vec::new();
    let mut m: usize = 0;
    while m < results.len()
        invariant
            m <= results@.len(),
            forall|k: int| 0 <= k < m ==> (#[trigger] results@[k]).1 is Ok,
            out@.len() == m,
            forall|k: int|
                0 <= k < m ==> (#[trigger] out@[k]).0 == results@[k].0 && out@[k].1
                    == results@[k].1->Ok_0,
        decreases results@.len() - m,
    {
        let (key, res) = &results[m];
        match res {
            Ok(v) => {
                out.push((key.duplicate(), v.duplicate()));
            },
            Err(e) => {
                return Err(e.duplicate());
            },
        }
        m = m + 1;
    }
    Ok(out)
}

/// The names in `r` are those of `hooks`, each once.
pub open spec fn hook_names<H>(r: Seq<String>, hooks: Seq<RegisteredHook<H>>) -> bool {
    &&& unique_names(r)
    &&& forall|n: Seq<char>| names_contain(r, n) <==> is_registered(hooks, n)
}

fn names_of<H>(hooks: &Vec<RegisteredHook<H>>) -> (r: Vec<String>)
    requires
        unique_hook_names(hooks@),
    ensures
        hook_names(r@, hooks@),
{
    let mut out: Vec<String> = Vec::new();
    let mut i: usize = 0;
    while i < hooks.len()
        invariant
            i <= hooks@.len(),
            out@.len() == i,
            forall|j: int| 0 <= j < i ==> (#[trigger] out@[j])@ == hooks@[j].name@,
        decreases hooks@.len() - i,
    {
        out.push(hooks[i].name.clone());
        i = i + 1;
    }
    proof {
        assert forall|a: int, b: int|
            0 <= a < out@.len() && 0 <= b < out@.len() && a != b implies (#[trigger] out@[a])@
                != (#[trigger] out@[b])@ by {
            assert(hooks@[a].name@ != hooks@[b].name@);
        }
        assert forall|n: Seq<char>| names_contain(out@, n) <==> is_registered(hooks@, n) by {
            if names_contain(out@, n) {
                let j = choose|j: int| 0 <= j < out@.len() && (#[trigger] out@[j])@ == n;
                assert(hooks@[j].name@ == n);
            }
            if is_registered(hooks@, n) {
                let j = choose|j: int| 0 <= j < hooks@.len() && (#[trigger] hooks@[j]).name@ == n;
                assert(out@[j]@ == n);
            }
        }
    }
    out
}

} // verus!
