//! Properties that hold of every evaluation, stated over the outcomes that
//! the evaluation functions ensure.
use crate::bypass::{config_bypassed, HookBypass, PushVar};
use crate::cache::{fits, inserted, key_weight, lemma_without_len, lookup, value_weight, with_entry, CacheEntry};
use crate::hook::{ChangesetHookExecutionID, FileHookExecutionID, Hook, HookChangeset, HookFile};
use crate::manager::{
    binding_of, changeset_outcome, file_keys, file_outcome, file_verdict_outcome, first_unregistered,
    hook_pos, is_registered, keys_match, surviving, unique_names, HookManager, RegisteredHook,
};
use crate::stores::{ChangesetStore, FileContentStore};
use crate::text::has_substring;
use crate::types::{ChangedFileType, ErrorKind, HgChangesetId, HookExecution};
use vstd::prelude::*;
use vstd::utf8::*;

verus! {

/// No two entries of `s` are equal.
pub open spec fn distinct<T>(s: Seq<T>) -> bool {
    forall|i: int, j: int| 0 <= i < s.len() && 0 <= j < s.len() && i != j ==> s[i] != s[j]
}

/// Where a bookmark has no hooks bound to it, both evaluations succeed with
/// no verdict.
pub proof fn law_unbound_bookmark_gives_no_verdict<C, F, S: ChangesetStore>(
    changeset_hooks: Seq<RegisteredHook<C>>,
    file_hooks: Seq<RegisteredHook<F>>,
    store: S,
    id: HgChangesetId,
    pushvars: Option<Seq<PushVar>>,
    rc: Result<Vec<(ChangesetHookExecutionID, HookExecution)>, ErrorKind>,
    rf: Result<Vec<(FileHookExecutionID, HookExecution)>, ErrorKind>,
)
    requires
        changeset_outcome(None, changeset_hooks, store, id, pushvars, rc),
        file_outcome(None, file_hooks, store, id, pushvars, rf),
    ensures
        rc matches Ok(v) && v@.len() == 0,
        rf matches Ok(v) && v@.len() == 0,
{
}

/// The surviving hooks of a binding without repeats are distinct, and each
/// is one of the bound names.
pub proof fn lemma_surviving_distinct<H>(
    names: Seq<String>,
    hooks: Seq<RegisteredHook<H>>,
    msg: Seq<char>,
    pushvars: Option<Seq<PushVar>>,
)
    requires
        unique_names(names),
    ensures
        distinct(surviving(names, hooks, msg, pushvars)),
        forall|i: int|
            0 <= i < surviving(names, hooks, msg, pushvars).len() ==> exists|j: int|
                0 <= j < names.len() && names[j]@ == #[trigger] surviving(names, hooks, msg, pushvars)[i],
    decreases names.len(),
{
    if names.len() > 0 {
        let p = names.drop_last();
        assert(unique_names(p)) by {
            assert forall|a: int, b: int| 0 <= a < p.len() && 0 <= b < p.len() && a != b implies (#[trigger] p[a])@ != (#[trigger] p[b])@ by {
                assert(p[a] == names[a] && p[b] == names[b]);
            }
        }
        lemma_surviving_distinct(p, hooks, msg, pushvars);
        let rest = surviving(p, hooks, msg, pushvars);
        let s = surviving(names, hooks, msg, pushvars);
        assert forall|i: int| 0 <= i < rest.len() implies rest[i] != names.last()@ by {
            let j = choose|j: int| 0 <= j < p.len() && p[j]@ == rest[i];
            assert(names[j] == p[j]);
            assert(names[j]@ != names[names.len() - 1]@);
        }
        assert forall|i: int| 0 <= i < s.len() implies exists|j: int|
            0 <= j < names.len() && names[j]@ == #[trigger] s[i] by {
            if i < rest.len() {
                assert(s[i] == rest[i]);
                let j = choose|j: int| 0 <= j < p.len() && p[j]@ == rest[i];
                assert(names[j] == p[j]);
            } else {
                assert(s[i] == names[names.len() - 1]@);
            }
        }
        assert forall|a: int, b: int| 0 <= a < s.len() && 0 <= b < s.len() && a != b implies s[a] != s[b] by {
            if a < rest.len() && b < rest.len() {
                assert(s[a] == rest[a] && s[b] == rest[b]);
            } else if a < rest.len() {
                assert(s[a] == rest[a]);
            } else if b < rest.len() {
                assert(s[b] == rest[b]);
            }
        }
    }
}

/// Each changeset hook that is bound to the bookmark, registered and not
/// bypassed has exactly one verdict, under this changeset and its own name.
pub proof fn law_one_verdict_per_changeset_hook<
    CS: ChangesetStore,
    FS: FileContentStore,
    C: Hook<HookChangeset, FS>,
    F: Hook<HookFile, FS>,
>(
    m: HookManager<CS, FS, C, F>,
    id: HgChangesetId,
    bookmark: Seq<char>,
    pushvars: Option<Seq<PushVar>>,
    r: Result<Vec<(ChangesetHookExecutionID, HookExecution)>, ErrorKind>,
)
    requires
        m.wf(),
        changeset_outcome(
            binding_of(m.bindings(), bookmark),
            m.changeset_hooks(),
            m.changeset_store(),
            id,
            pushvars,
            r,
        ),
        r is Ok,
        binding_of(m.bindings(), bookmark) is Some,
    ensures
        ({
            let names = binding_of(m.bindings(), bookmark)->Some_0;
            let info = m.changeset_store().changeset(id)->Some_0;
            let surv = surviving(names, m.changeset_hooks(), decode_utf8(info.comments@), pushvars);
            let v = r->Ok_0@;
            forall|n: Seq<char>|
                #[trigger] surv.contains(n) ==> exists|k: int|
                    0 <= k < v.len() && v[k].0.hook_name@ == n && v[k].0.cs_id == id && forall|k2: int|
                        0 <= k2 < v.len() && #[trigger] v[k2].0.hook_name@ == n ==> k2 == k
        }),
{
    let names = binding_of(m.bindings(), bookmark)->Some_0;
    m.lemma_bindings_unique(bookmark);
    let info = m.changeset_store().changeset(id)->Some_0;
    let surv = surviving(names, m.changeset_hooks(), decode_utf8(info.comments@), pushvars);
    lemma_surviving_distinct(names, m.changeset_hooks(), decode_utf8(info.comments@), pushvars);
    let v = r->Ok_0@;
    assert forall|n: Seq<char>| #[trigger] surv.contains(n) implies exists|k: int|
        0 <= k < v.len() && v[k].0.hook_name@ == n && v[k].0.cs_id == id && forall|k2: int|
            0 <= k2 < v.len() && #[trigger] v[k2].0.hook_name@ == n ==> k2 == k by {
        let i = choose|i: int| 0 <= i < surv.len() && surv[i] == n;
        assert(v[i].0.hook_name@ == surv[i]);
        assert forall|k2: int| 0 <= k2 < v.len() && #[trigger] v[k2].0.hook_name@ == n implies k2 == i by {
            assert(surv[k2] == n);
        }
    }
}

/// Every triple of `file_keys` is a file that was not deleted, with its
/// change kind, and a surviving hook.
pub proof fn lemma_file_keys_from(files: Seq<(Seq<char>, ChangedFileType)>, surv: Seq<Seq<char>>)
    ensures
        forall|k: int|
            0 <= k < file_keys(files, surv).len() ==> (exists|i: int|
                0 <= i < files.len() && files[i].0 == (#[trigger] file_keys(files, surv)[k]).0
                    && files[i].1 == file_keys(files, surv)[k].1 && files[i].1
                    != ChangedFileType::Deleted) && surv.contains(
                file_keys(files, surv)[k].2,
            ),
    decreases files.len(),
{
    if files.len() > 0 {
        let p = files.drop_last();
        lemma_file_keys_from(p, surv);
        let rest = file_keys(p, surv);
        let keys = file_keys(files, surv);
        assert forall|k: int| 0 <= k < keys.len() implies (exists|i: int|
            0 <= i < files.len() && files[i].0 == (#[trigger] keys[k]).0 && files[i].1
                == keys[k].1 && files[i].1 != ChangedFileType::Deleted) && surv.contains(keys[k].2) by {
            if k < rest.len() {
                assert(keys[k] == rest[k]);
                let i = choose|i: int|
                    0 <= i < p.len() && p[i].0 == rest[k].0 && p[i].1 == rest[k].1 && p[i].1
                        != ChangedFileType::Deleted;
                assert(files[i] == p[i]);
            } else {
                let h = k - rest.len();
                assert(keys[k] == (files.last().0, files.last().1, surv[h]));
                assert(files[files.len() - 1] == files.last());
            }
        }
    }
}

/// With distinct paths and distinct surviving hooks, each pair of a file
/// that was not deleted and a surviving hook occurs once in `file_keys`.
pub proof fn lemma_file_keys_once(
    files: Seq<(Seq<char>, ChangedFileType)>,
    surv: Seq<Seq<char>>,
    i: int,
    h: int,
)
    requires
        forall|a: int, b: int|
            0 <= a < files.len() && 0 <= b < files.len() && a != b ==> files[a].0 != files[b].0,
        distinct(surv),
        0 <= i < files.len(),
        files[i].1 != ChangedFileType::Deleted,
        0 <= h < surv.len(),
    ensures
        exists|k: int|
            0 <= k < file_keys(files, surv).len() && file_keys(files, surv)[k] == (files[i].0, files[i].1, surv[h])
                && forall|k2: int|
                0 <= k2 < file_keys(files, surv).len() && #[trigger] file_keys(files, surv)[k2] == (
                    files[i].0,
                    files[i].1,
                    surv[h],
                ) ==> k2 == k,
    decreases files.len(),
{
    let p = files.drop_last();
    let rest = file_keys(p, surv);
    let keys = file_keys(files, surv);
    let key = (files[i].0, files[i].1, surv[h]);
    lemma_file_keys_from(p, surv);
    if i == files.len() - 1 {
        assert(keys == rest + surv.map_values(|x: Seq<char>| (files.last().0, files.last().1, x)));
        let k = rest.len() + h;
        assert(keys[k] == key);
        assert forall|k2: int| 0 <= k2 < keys.len() && #[trigger] keys[k2] == key implies k2 == k by {
            if k2 < rest.len() {
                assert(keys[k2] == rest[k2]);
                let j = choose|j: int|
                    0 <= j < p.len() && p[j].0 == rest[k2].0 && p[j].1 != ChangedFileType::Deleted;
                assert(files[j] == p[j]);
            } else {
                assert(keys[k2] == (files.last().0, files.last().1, surv[k2 - rest.len()]));
            }
        }
    } else {
        assert(p[i] == files[i]);
        assert forall|a: int, b: int|
            0 <= a < p.len() && 0 <= b < p.len() && a != b implies p[a].0 != p[b].0 by {
            assert(p[a] == files[a] && p[b] == files[b]);
        }
        lemma_file_keys_once(p, surv, i, h);
        let k = choose|k: int|
            0 <= k < rest.len() && rest[k] == key && forall|k2: int|
                0 <= k2 < rest.len() && #[trigger] rest[k2] == key ==> k2 == k;
        assert(files.last() == files[files.len() - 1]);
        if files.last().1 == ChangedFileType::Deleted {
            assert(keys == rest);
        } else {
            assert(keys == rest + surv.map_values(|x: Seq<char>| (files.last().0, files.last().1, x)));
            assert(keys[k] == rest[k]);
            assert forall|k2: int| 0 <= k2 < keys.len() && #[trigger] keys[k2] == key implies k2 == k by {
                if k2 < rest.len() {
                    assert(keys[k2] == rest[k2]);
                } else {
                    assert(keys[k2] == (files.last().0, files.last().1, surv[k2 - rest.len()]));
                }
            }
        }
    }
}

/// Exactly one verdict of `v` is for the file at `path` and the hook `hook`.
pub open spec fn one_file_verdict(
    v: Seq<(FileHookExecutionID, HookExecution)>,
    path: Seq<char>,
    hook: Seq<char>,
) -> bool {
    exists|k: int|
        0 <= k < v.len() && v[k].0.file.path@ == path && v[k].0.hook_name@ == hook && forall|k2: int|
            0 <= k2 < v.len() && #[trigger] v[k2].0.file.path@ == path && v[k2].0.hook_name@ == hook
                ==> k2 == k
}

/// The files of a stored changeset as (path, change kind) pairs.
pub open spec fn changed_files<S: ChangesetStore>(
    store: S,
    id: HgChangesetId,
) -> Seq<(Seq<char>, ChangedFileType)> {
    store.changeset(id)->Some_0.files@.map_values(|p: (String, ChangedFileType)| (p.0@, p.1))
}

/// Where the paths of the changeset are distinct, each pair of a file that
/// was not deleted and a surviving file hook has exactly one verdict, and
/// every verdict is for such a pair: deleted files get none.
pub proof fn law_one_verdict_per_file_and_hook<
    CS: ChangesetStore,
    FS: FileContentStore,
    C: Hook<HookChangeset, FS>,
    F: Hook<HookFile, FS>,
>(
    m: HookManager<CS, FS, C, F>,
    id: HgChangesetId,
    bookmark: Seq<char>,
    pushvars: Option<Seq<PushVar>>,
    r: Result<Vec<(FileHookExecutionID, HookExecution)>, ErrorKind>,
)
    requires
        m.wf(),
        file_outcome(
            binding_of(m.bindings(), bookmark),
            m.file_hooks(),
            m.changeset_store(),
            id,
            pushvars,
            r,
        ),
        r is Ok,
        binding_of(m.bindings(), bookmark) is Some,
        m.changeset_store().changeset(id) is Some,
        forall|a: int, b: int|
            0 <= a < changed_files(m.changeset_store(), id).len() && 0 <= b < changed_files(
                m.changeset_store(),
                id,
            ).len() && a != b ==> changed_files(m.changeset_store(), id)[a].0 != changed_files(
                m.changeset_store(),
                id,
            )[b].0,
    ensures
        ({
            let names = binding_of(m.bindings(), bookmark)->Some_0;
            let info = m.changeset_store().changeset(id)->Some_0;
            let surv = surviving(names, m.file_hooks(), decode_utf8(info.comments@), pushvars);
            let files = changed_files(m.changeset_store(), id);
            let v = r->Ok_0@;
            &&& forall|i: int, n: Seq<char>|
                0 <= i < files.len() && files[i].1 != ChangedFileType::Deleted
                    && surv.contains(n) ==> #[trigger] one_file_verdict(v, files[i].0, n)
            &&& forall|k: int|
                0 <= k < v.len() ==> v[k].0.cs_id == id && exists|i: int|
                    0 <= i < files.len() && files[i].0 == (#[trigger] v[k]).0.file.path@ && files[i].1
                        != ChangedFileType::Deleted
        }),
{
    let names = binding_of(m.bindings(), bookmark)->Some_0;
    m.lemma_bindings_unique(bookmark);
    let info = m.changeset_store().changeset(id)->Some_0;
    let surv = surviving(names, m.file_hooks(), decode_utf8(info.comments@), pushvars);
    lemma_surviving_distinct(names, m.file_hooks(), decode_utf8(info.comments@), pushvars);
    lemma_file_verdicts(r->Ok_0@, changed_files(m.changeset_store(), id), surv, id);
}

proof fn lemma_file_verdicts(
    v: Seq<(FileHookExecutionID, HookExecution)>,
    files: Seq<(Seq<char>, ChangedFileType)>,
    surv: Seq<Seq<char>>,
    id: HgChangesetId,
)
    requires
        keys_match(v, file_keys(files, surv), id),
        distinct(surv),
        forall|a: int, b: int|
            0 <= a < files.len() && 0 <= b < files.len() && a != b ==> files[a].0 != files[b].0,
    ensures
        forall|i: int, n: Seq<char>|
            0 <= i < files.len() && files[i].1 != ChangedFileType::Deleted
                && surv.contains(n) ==> #[trigger] one_file_verdict(v, files[i].0, n),
        forall|k: int|
            0 <= k < v.len() ==> v[k].0.cs_id == id && exists|i: int|
                0 <= i < files.len() && files[i].0 == (#[trigger] v[k]).0.file.path@ && files[i].1
                    != ChangedFileType::Deleted,
{
    assert forall|i: int, n: Seq<char>|
        0 <= i < files.len() && files[i].1 != ChangedFileType::Deleted
            && surv.contains(n) implies #[trigger] one_file_verdict(v, files[i].0, n) by {
        let h = choose|h: int| 0 <= h < surv.len() && surv[h] == n;
        lemma_file_verdict_once(v, files, surv, id, i, h);
    }
    lemma_file_verdicts_not_deleted(v, files, surv, id);
}

proof fn lemma_file_verdicts_not_deleted(
    v: Seq<(FileHookExecutionID, HookExecution)>,
    files: Seq<(Seq<char>, ChangedFileType)>,
    surv: Seq<Seq<char>>,
    id: HgChangesetId,
)
    requires
        keys_match(v, file_keys(files, surv), id),
    ensures
        forall|k: int|
            0 <= k < v.len() ==> v[k].0.cs_id == id && exists|i: int|
                0 <= i < files.len() && files[i].0 == (#[trigger] v[k]).0.file.path@ && files[i].1
                    != ChangedFileType::Deleted,
{
    lemma_file_keys_from(files, surv);
    let keys = file_keys(files, surv);
    assert forall|k: int| 0 <= k < v.len() implies v[k].0.cs_id == id && exists|i: int|
        0 <= i < files.len() && files[i].0 == (#[trigger] v[k]).0.file.path@ && files[i].1
            != ChangedFileType::Deleted by {
        assert(v[k].0.file.path@ == keys[k].0);
        let i = choose|i: int|
            0 <= i < files.len() && files[i].0 == keys[k].0 && files[i].1 != ChangedFileType::Deleted;
        assert(files[i].0 == v[k].0.file.path@);
    }
}

proof fn lemma_file_verdict_once(
    v: Seq<(FileHookExecutionID, HookExecution)>,
    files: Seq<(Seq<char>, ChangedFileType)>,
    surv: Seq<Seq<char>>,
    id: HgChangesetId,
    i: int,
    h: int,
)
    requires
        keys_match(v, file_keys(files, surv), id),
        distinct(surv),
        forall|a: int, b: int|
            0 <= a < files.len() && 0 <= b < files.len() && a != b ==> files[a].0 != files[b].0,
        0 <= i < files.len(),
        files[i].1 != ChangedFileType::Deleted,
        0 <= h < surv.len(),
    ensures
        one_file_verdict(v, files[i].0, surv[h]),
{
    let keys = file_keys(files, surv);
    lemma_file_keys_from(files, surv);
    lemma_file_keys_once(files, surv, i, h);
    let k = choose|k: int|
        0 <= k < keys.len() && keys[k] == (files[i].0, files[i].1, surv[h]) && forall|k2: int|
            0 <= k2 < keys.len() && #[trigger] keys[k2] == (files[i].0, files[i].1, surv[h]) ==> k2 == k;
    assert(v[k].0.file.path@ == keys[k].0);
    assert forall|k2: int|
        0 <= k2 < v.len() && #[trigger] v[k2].0.file.path@ == files[i].0 && v[k2].0.hook_name@
            == surv[h] implies k2 == k by {
        assert(keys[k2].0 == files[i].0 && keys[k2].2 == surv[h]);
        let j = choose|j: int|
            0 <= j < files.len() && files[j].0 == keys[k2].0 && files[j].1 == keys[k2].1
                && files[j].1 != ChangedFileType::Deleted;
        assert(j == i);
        assert(keys[k2] == (files[i].0, files[i].1, surv[h]));
    }
}

/// A hook bypassed by a commit-message marker gives no verdict on a commit
/// whose message holds the marker, and one verdict on any other.
pub proof fn law_commit_message_bypass<H>(
    names: Seq<String>,
    hooks: Seq<RegisteredHook<H>>,
    msg: Seq<char>,
    pushvars: Option<Seq<PushVar>>,
    marker: String,
)
    requires
        names.len() == 1,
        is_registered(hooks, names[0]@),
        hooks[hook_pos(hooks, names[0]@)].config.bypass == Some(HookBypass::CommitMessage(marker)),
    ensures
        surviving(names, hooks, msg, pushvars).len() == if has_substring(msg, marker@) {
            0int
        } else {
            1int
        },
{
    assert(names.drop_last().len() == 0);
    assert(surviving(names.drop_last(), hooks, msg, pushvars) =~= Seq::<Seq<char>>::empty());
    assert(names.last() == names[0]);
    assert(config_bypassed(hooks[hook_pos(hooks, names[0]@)].config, msg, pushvars) == has_substring(msg, marker@));
}

/// A verdict that the cache holds is handed out again without a second run:
/// once a run for `key` has given a verdict that fits the cache, asking for
/// `key` again gives the same verdict and runs nothing.
pub proof fn law_single_fill<
    CS: ChangesetStore,
    FS: FileContentStore,
    C: Hook<HookChangeset, FS>,
    F: Hook<HookFile, FS>,
>(
    m0: HookManager<CS, FS, C, F>,
    m1: HookManager<CS, FS, C, F>,
    m2: HookManager<CS, FS, C, F>,
    key: FileHookExecutionID,
    r1: Result<HookExecution, ErrorKind>,
    r2: Result<HookExecution, ErrorKind>,
)
    requires
        file_verdict_outcome(m0, m1, key, r1),
        file_verdict_outcome(m1, m2, key, r2),
        r1 matches Ok(v) && key_weight(key) + value_weight(v) <= m0.cache().weight_limit(),
        m0.cache().entry_limit() >= 1,
    ensures
        r2 == r1,
        m2.fills() == m1.fills(),
{
    let v = r1->Ok_0;
    if lookup(m0.cache().entries(), key) is Some {
        assert(lookup(m1.cache().entries(), key) == lookup(m0.cache().entries(), key));
    }
    assert(lookup(m1.cache().entries(), key) == Some(v));
}

/// Storing a verdict that brings the cache over a limit evicts: no more
/// entries remain than there were before.
pub proof fn law_cache_bound(
    old: Seq<CacheEntry>,
    new: Seq<CacheEntry>,
    key: FileHookExecutionID,
    value: HookExecution,
    entry_limit: nat,
    weight_limit: nat,
)
    requires
        inserted(old, new, key, value, entry_limit, weight_limit),
        !fits(with_entry(old, key, value), entry_limit, weight_limit),
    ensures
        new.len() <= old.len(),
{
    let base = with_entry(old, key, value);
    let j = choose|j: int|
        0 <= j <= base.len() && new == #[trigger] base.subrange(j, base.len() as int) && (j == 0
            || !fits(base.subrange(j - 1, base.len() as int), entry_limit, weight_limit));
    if j == 0 {
        assert(base.subrange(0, base.len() as int) =~= base);
    }
    lemma_without_len(old, key);
}

/// A bound changeset hook that is not registered fails the whole
/// evaluation: the first such name is the error, and no verdict comes.
pub proof fn law_unknown_changeset_hook_is_fatal<C, S: ChangesetStore>(
    names: Seq<String>,
    hooks: Seq<RegisteredHook<C>>,
    store: S,
    id: HgChangesetId,
    pushvars: Option<Seq<PushVar>>,
    r: Result<Vec<(ChangesetHookExecutionID, HookExecution)>, ErrorKind>,
    k: int,
)
    requires
        changeset_outcome(Some(names), hooks, store, id, pushvars, r),
        0 <= k < names.len(),
        !is_registered(hooks, names[k]@),
    ensures
        r matches Err(ErrorKind::NoSuchHook(n)) && !is_registered(hooks, n@) && names.contains(n),
{
    lemma_first_unregistered_exists(names, hooks, k);
    let k0 = first_unregistered(names, hooks)->Some_0;
    assert(names[k0] == names[k0]);
}

proof fn lemma_first_unregistered_exists<H>(names: Seq<String>, hooks: Seq<RegisteredHook<H>>, k: int)
    requires
        0 <= k < names.len(),
        !is_registered(hooks, names[k]@),
    ensures
        first_unregistered(names, hooks) is Some,
        exists|k0: int|
            0 <= k0 < names.len() && !is_registered(hooks, #[trigger] names[k0]@) && forall|k2: int|
                0 <= k2 < k0 ==> is_registered(hooks, #[trigger] names[k2]@),
    decreases k,
{
    if exists|k1: int| 0 <= k1 < k && !is_registered(hooks, #[trigger] names[k1]@) {
        let k1 = choose|k1: int| 0 <= k1 < k && !is_registered(hooks, #[trigger] names[k1]@);
        lemma_first_unregistered_exists(names, hooks, k1);
    } else {
        assert(forall|k2: int| 0 <= k2 < k ==> is_registered(hooks, #[trigger] names[k2]@));
    }
}

} // verus!
