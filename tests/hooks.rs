use hooks::bypass::{is_hook_bypassed, HookBypass, HookConfig, PushVar};
use hooks::cache::{entry_weight, VerdictCache};
use hooks::hook::{FileHookExecutionID, Hook, HookChangeset, HookContext, HookFile};
use hooks::manager::{collect_changeset_verdicts, collect_file_verdicts, HookManager, HookManagerParams};
use hooks::stores::{ChangesetInfo, InMemoryChangesetStore, InMemoryFileContentStore};
use hooks::types::{
    ChangedFileType, ErrorKind, FileType, HgChangesetId, HookChangesetParents, HookExecution,
    HookRejectionInfo,
};

type Manager<C, F> = HookManager<InMemoryChangesetStore, InMemoryFileContentStore, C, F>;

struct DenyBigMsg;

impl Hook<HookChangeset, InMemoryFileContentStore> for DenyBigMsg {
    fn run(
        &self,
        context: &HookContext<HookChangeset>,
        _content_store: &InMemoryFileContentStore,
    ) -> Result<HookExecution, String> {
        if context.data.comments.len() > 10 {
            Ok(HookExecution::Rejected(HookRejectionInfo::new(
                "msg too long".to_string(),
                "the commit message is longer than 10 bytes".to_string(),
            )))
        } else {
            Ok(HookExecution::Accepted)
        }
    }
}

struct FailingHook;

impl Hook<HookChangeset, InMemoryFileContentStore> for FailingHook {
    fn run(
        &self,
        _context: &HookContext<HookChangeset>,
        _content_store: &InMemoryFileContentStore,
    ) -> Result<HookExecution, String> {
        Err("script error".to_string())
    }
}

struct NoSecrets;

impl Hook<HookFile, InMemoryFileContentStore> for NoSecrets {
    fn run(
        &self,
        context: &HookContext<HookFile>,
        content_store: &InMemoryFileContentStore,
    ) -> Result<HookExecution, String> {
        match context.data.contains_string(content_store, "SECRET") {
            Ok(true) => Ok(HookExecution::Rejected(HookRejectionInfo::new(
                "secret found".to_string(),
                String::new(),
            ))),
            Ok(false) => Ok(HookExecution::Accepted),
            Err(e) => Err(format!("{:?}", e)),
        }
    }
}

fn cs(id: u64) -> HgChangesetId {
    HgChangesetId::new(id)
}

fn params() -> HookManagerParams {
    HookManagerParams { entrylimit: 100, weightlimit: 100_000 }
}

fn changeset(user: &[u8], comments: &str, files: Vec<(&str, ChangedFileType)>) -> ChangesetInfo {
    ChangesetInfo::new(
        user.to_vec(),
        comments.as_bytes().to_vec(),
        HookChangesetParents::NoParents,
        files.into_iter().map(|(p, t)| (p.to_string(), t)).collect(),
    )
}

fn manager_with<
    C: Hook<HookChangeset, InMemoryFileContentStore>,
    F: Hook<HookFile, InMemoryFileContentStore>,
>(
    changesets: Vec<(u64, ChangesetInfo)>,
    contents: Vec<(u64, &str, &str)>,
) -> Manager<C, F> {
    let mut store = InMemoryChangesetStore::new();
    for (id, info) in changesets {
        store.insert(&cs(id), info);
    }
    let mut content = InMemoryFileContentStore::new();
    for (id, path, text) in contents {
        content.insert((cs(id), path.to_string()), (FileType::Regular, text.as_bytes().to_vec()));
    }
    HookManager::new("repo".to_string(), store, content, params())
}

fn msg_bypass(marker: &str) -> HookConfig {
    HookConfig::new(Some(HookBypass::CommitMessage(marker.to_string())))
}

fn pushvar_bypass(name: &str, value: &str) -> HookConfig {
    HookConfig::new(Some(HookBypass::Pushvar { name: name.to_string(), value: value.to_string() }))
}

#[test]
fn deny_big_msg_accepts_short_and_rejects_long() {
    let mut m: Manager<DenyBigMsg, NoSecrets> = manager_with(
        vec![(1, changeset(b"alice", "short", vec![])), (2, changeset(b"alice", "this is way too long", vec![]))],
        vec![],
    );
    m.register_changeset_hook("deny-big-msg", DenyBigMsg, HookConfig::new(None));
    m.set_hooks_for_bookmark("main".to_string(), vec!["deny-big-msg".to_string()]);
    let main = "main".to_string();

    let v = m.run_changeset_hooks_for_bookmark(cs(1), &main, None).unwrap();
    assert_eq!(v.len(), 1);
    assert_eq!(v[0].0.cs_id, cs(1));
    assert_eq!(v[0].0.hook_name, "deny-big-msg");
    assert_eq!(v[0].1, HookExecution::Accepted);

    let v = m.run_changeset_hooks_for_bookmark(cs(2), &main, None).unwrap();
    assert_eq!(v.len(), 1);
    match &v[0].1 {
        HookExecution::Rejected(info) => assert_eq!(info.description, "msg too long"),
        other => panic!("expected a rejection, got {:?}", other),
    }
}

#[test]
fn no_secrets_checks_added_and_modified_files_only() {
    let mut m: Manager<DenyBigMsg, NoSecrets> = manager_with(
        vec![(
            7,
            changeset(
                b"bob",
                "add files",
                vec![
                    ("a.txt", ChangedFileType::Added),
                    ("b.txt", ChangedFileType::Modified),
                    ("c.txt", ChangedFileType::Deleted),
                ],
            ),
        )],
        vec![(7, "a.txt", "ok"), (7, "b.txt", "has SECRET")],
    );
    m.register_file_hook("no-secrets", NoSecrets, HookConfig::new(None));
    m.set_hooks_for_bookmark("main".to_string(), vec!["no-secrets".to_string()]);
    let v = m.run_file_hooks_for_bookmark(cs(7), &"main".to_string(), None).unwrap();
    assert_eq!(v.len(), 2);
    assert_eq!(v[0].0.file.path, "a.txt");
    assert_eq!(v[0].0.hook_name, "no-secrets");
    assert_eq!(v[0].1, HookExecution::Accepted);
    assert_eq!(v[1].0.file.path, "b.txt");
    assert!(matches!(v[1].1, HookExecution::Rejected(_)));
    assert!(v.iter().all(|(id, _)| id.file.path != "c.txt"));
}

#[test]
fn pushvar_bypass_skips_hook_only_on_matching_value() {
    let mut m: Manager<DenyBigMsg, NoSecrets> =
        manager_with(vec![(1, changeset(b"carol", "a change", vec![]))], vec![]);
    m.register_changeset_hook("deny-py", DenyBigMsg, pushvar_bypass("OVERRIDE", "yes"));
    m.set_hooks_for_bookmark("main".to_string(), vec!["deny-py".to_string()]);
    let main = "main".to_string();

    let yes = vec![PushVar::new("OVERRIDE".to_string(), b"yes".to_vec())];
    assert_eq!(m.run_changeset_hooks_for_bookmark(cs(1), &main, Some(&yes)).unwrap().len(), 0);
    let no = vec![PushVar::new("OVERRIDE".to_string(), b"no".to_vec())];
    assert_eq!(m.run_changeset_hooks_for_bookmark(cs(1), &main, Some(&no)).unwrap().len(), 1);
    assert_eq!(m.run_changeset_hooks_for_bookmark(cs(1), &main, None).unwrap().len(), 1);
}

#[test]
fn repeated_file_evaluation_fills_cache_once() {
    let mut m: Manager<DenyBigMsg, NoSecrets> = manager_with(
        vec![(3, changeset(b"dan", "msg", vec![("a.txt", ChangedFileType::Added)]))],
        vec![(3, "a.txt", "fine")],
    );
    m.register_file_hook("no-secrets", NoSecrets, HookConfig::new(None));
    m.set_hooks_for_bookmark("main".to_string(), vec!["no-secrets".to_string()]);
    let main = "main".to_string();
    let first = m.run_file_hooks_for_bookmark(cs(3), &main, None).unwrap();
    assert_eq!(m.fill_count(), 1);
    let second = m.run_file_hooks_for_bookmark(cs(3), &main, None).unwrap();
    assert_eq!(m.fill_count(), 1);
    assert_eq!(first[0].1, second[0].1);
    assert_eq!(second[0].1, HookExecution::Accepted);
}

#[test]
fn same_key_twice_runs_hook_once() {
    let mut m: Manager<DenyBigMsg, NoSecrets> = manager_with(
        vec![(3, changeset(b"dan", "msg", vec![("a.txt", ChangedFileType::Added)]))],
        vec![(3, "a.txt", "SECRET")],
    );
    m.register_file_hook("no-secrets", NoSecrets, HookConfig::new(None));
    let key = FileHookExecutionID {
        cs_id: cs(3),
        hook_name: "no-secrets".to_string(),
        file: HookFile::new("a.txt".to_string(), cs(3), ChangedFileType::Added),
    };
    let a = m.run_file_hook(&key).unwrap();
    let b = m.run_file_hook(&key).unwrap();
    assert_eq!(a, b);
    assert!(matches!(a, HookExecution::Rejected(_)));
    assert_eq!(m.fill_count(), 1);
}

#[test]
fn unknown_bound_changeset_hook_is_fatal() {
    let mut m: Manager<DenyBigMsg, NoSecrets> =
        manager_with(vec![(1, changeset(b"erin", "msg", vec![]))], vec![]);
    m.register_changeset_hook("exists", DenyBigMsg, HookConfig::new(None));
    m.set_hooks_for_bookmark("main".to_string(), vec!["exists".to_string(), "ghost".to_string()]);
    let r = m.run_changeset_hooks_for_bookmark(cs(1), &"main".to_string(), None);
    assert_eq!(r.unwrap_err(), ErrorKind::NoSuchHook("ghost".to_string()));
}

#[test]
fn unknown_bound_file_hook_is_fatal() {
    let mut m: Manager<DenyBigMsg, NoSecrets> =
        manager_with(vec![(1, changeset(b"erin", "msg", vec![("a", ChangedFileType::Added)]))], vec![]);
    m.set_hooks_for_bookmark("main".to_string(), vec!["ghost".to_string()]);
    let r = m.run_file_hooks_for_bookmark(cs(1), &"main".to_string(), None);
    assert_eq!(r.unwrap_err(), ErrorKind::NoSuchHook("ghost".to_string()));
    assert_eq!(m.fill_count(), 0);
}

#[test]
fn non_utf8_author_fails_before_any_hook() {
    let mut m: Manager<FailingHook, NoSecrets> =
        manager_with(vec![(1, changeset(&[0xff, 0xfe], "msg", vec![]))], vec![]);
    m.register_changeset_hook("boom", FailingHook, HookConfig::new(None));
    m.set_hooks_for_bookmark("main".to_string(), vec!["boom".to_string()]);
    let r = m.run_changeset_hooks_for_bookmark(cs(1), &"main".to_string(), None);
    assert_eq!(r.unwrap_err(), ErrorKind::InvalidUtf8("author".to_string()));
}

#[test]
fn non_utf8_comments_fail() {
    let mut store = InMemoryChangesetStore::new();
    store.insert(
        &cs(1),
        ChangesetInfo::new(b"ok".to_vec(), vec![0xc3], HookChangesetParents::NoParents, vec![]),
    );
    let mut m: Manager<DenyBigMsg, NoSecrets> =
        HookManager::new("repo".to_string(), store, InMemoryFileContentStore::new(), params());
    m.register_changeset_hook("h", DenyBigMsg, HookConfig::new(None));
    m.set_hooks_for_bookmark("main".to_string(), vec!["h".to_string()]);
    let r = m.run_changeset_hooks_for_bookmark(cs(1), &"main".to_string(), None);
    assert_eq!(r.unwrap_err(), ErrorKind::InvalidUtf8("comments".to_string()));
}

#[test]
fn missing_changeset_is_an_error() {
    let mut m: Manager<DenyBigMsg, NoSecrets> = manager_with(vec![], vec![]);
    m.register_changeset_hook("h", DenyBigMsg, HookConfig::new(None));
    m.set_hooks_for_bookmark("main".to_string(), vec!["h".to_string()]);
    let r = m.run_changeset_hooks_for_bookmark(cs(9), &"main".to_string(), None);
    assert_eq!(r.unwrap_err(), ErrorKind::NoSuchChangeset(cs(9)));
}

#[test]
fn failing_hook_body_is_reported_with_its_name() {
    let mut m: Manager<FailingHook, NoSecrets> =
        manager_with(vec![(1, changeset(b"f", "msg", vec![]))], vec![]);
    m.register_changeset_hook("boom", FailingHook, HookConfig::new(None));
    m.set_hooks_for_bookmark("main".to_string(), vec!["boom".to_string()]);
    let r = m.run_changeset_hooks_for_bookmark(cs(1), &"main".to_string(), None);
    assert_eq!(
        r.unwrap_err(),
        ErrorKind::HookRunFailed { hook_name: "boom".to_string(), cause: "script error".to_string() }
    );
}

#[test]
fn unbound_bookmark_gives_no_verdict() {
    let mut m: Manager<DenyBigMsg, NoSecrets> = manager_with(vec![], vec![]);
    m.register_changeset_hook("h", DenyBigMsg, HookConfig::new(None));
    m.register_file_hook("f", NoSecrets, HookConfig::new(None));
    let other = "other".to_string();
    // The changeset does not even exist: the stores are never asked.
    assert_eq!(m.run_changeset_hooks_for_bookmark(cs(5), &other, None).unwrap().len(), 0);
    assert_eq!(m.run_file_hooks_for_bookmark(cs(5), &other, None).unwrap().len(), 0);
}

#[test]
fn commit_message_marker_bypasses_hook() {
    let mut m: Manager<DenyBigMsg, NoSecrets> = manager_with(
        vec![(1, changeset(b"g", "fix it @bypass", vec![])), (2, changeset(b"g", "fix it", vec![]))],
        vec![],
    );
    m.register_changeset_hook("h", DenyBigMsg, msg_bypass("@bypass"));
    m.set_hooks_for_bookmark("main".to_string(), vec!["h".to_string()]);
    let main = "main".to_string();
    assert_eq!(m.run_changeset_hooks_for_bookmark(cs(1), &main, None).unwrap().len(), 0);
    assert_eq!(m.run_changeset_hooks_for_bookmark(cs(2), &main, None).unwrap().len(), 1);
}

#[test]
fn file_verdicts_cover_every_file_and_hook_pair_once() {
    let mut m: Manager<DenyBigMsg, NoSecrets> = manager_with(
        vec![(
            4,
            changeset(
                b"h",
                "msg",
                vec![("x", ChangedFileType::Added), ("y", ChangedFileType::Modified)],
            ),
        )],
        vec![(4, "x", "1"), (4, "y", "2")],
    );
    m.register_file_hook("one", NoSecrets, HookConfig::new(None));
    m.register_file_hook("two", NoSecrets, HookConfig::new(None));
    m.set_hooks_for_bookmark(
        "main".to_string(),
        vec!["one".to_string(), "two".to_string(), "one".to_string()],
    );
    let v = m.run_file_hooks_for_bookmark(cs(4), &"main".to_string(), None).unwrap();
    let pairs: Vec<(String, String)> =
        v.iter().map(|(id, _)| (id.file.path.clone(), id.hook_name.clone())).collect();
    assert_eq!(
        pairs,
        vec![
            ("x".to_string(), "one".to_string()),
            ("x".to_string(), "two".to_string()),
            ("y".to_string(), "one".to_string()),
            ("y".to_string(), "two".to_string()),
        ]
    );
    assert!(v.iter().all(|(id, _)| id.cs_id == cs(4) && id.file.changeset_id == cs(4)));
}

#[test]
fn duplicate_binding_gives_one_changeset_verdict() {
    let mut m: Manager<DenyBigMsg, NoSecrets> =
        manager_with(vec![(1, changeset(b"i", "msg", vec![]))], vec![]);
    m.register_changeset_hook("h", DenyBigMsg, HookConfig::new(None));
    m.set_hooks_for_bookmark("main".to_string(), vec!["h".to_string(), "h".to_string()]);
    assert_eq!(m.run_changeset_hooks_for_bookmark(cs(1), &"main".to_string(), None).unwrap().len(), 1);
}

#[test]
fn registration_replaces_and_names_are_listed_once() {
    let mut m: Manager<DenyBigMsg, NoSecrets> = manager_with(vec![], vec![]);
    m.register_changeset_hook("a", DenyBigMsg, HookConfig::new(None));
    m.register_changeset_hook("b", DenyBigMsg, HookConfig::new(None));
    m.register_changeset_hook("a", DenyBigMsg, msg_bypass("x"));
    m.register_file_hook("f", NoSecrets, HookConfig::new(None));
    let mut names = m.changeset_hook_names();
    names.sort();
    assert_eq!(names, vec!["a".to_string(), "b".to_string()]);
    assert_eq!(m.file_hook_names(), vec!["f".to_string()]);
}

#[test]
fn bypass_rules() {
    let msg = "Summary @bypass-hooks".to_string();
    assert!(is_hook_bypassed(&HookBypass::CommitMessage("@bypass".to_string()), &msg, None));
    assert!(!is_hook_bypassed(&HookBypass::CommitMessage("@BYPASS".to_string()), &msg, None));
    let pv = HookBypass::Pushvar { name: "X".to_string(), value: "é".to_string() };
    let good = vec![PushVar::new("X".to_string(), "é".as_bytes().to_vec())];
    let bad = vec![PushVar::new("X".to_string(), vec![0xff])];
    let other = vec![PushVar::new("Y".to_string(), "é".as_bytes().to_vec())];
    assert!(is_hook_bypassed(&pv, &msg, Some(&good)));
    assert!(!is_hook_bypassed(&pv, &msg, Some(&bad)));
    assert!(!is_hook_bypassed(&pv, &msg, Some(&other)));
    assert!(!is_hook_bypassed(&pv, &msg, None));
}

fn key(name: &str, path: &str) -> FileHookExecutionID {
    FileHookExecutionID {
        cs_id: cs(1),
        hook_name: name.to_string(),
        file: HookFile::new(path.to_string(), cs(1), ChangedFileType::Added),
    }
}

#[test]
fn entry_weight_formula() {
    assert_eq!(entry_weight(&key("h", "a.txt"), &HookExecution::Accepted), 130);
    let rejected = HookExecution::Rejected(HookRejectionInfo::new("ab".to_string(), "cde".to_string()));
    assert_eq!(entry_weight(&key("h", "a.txt"), &rejected), 231);
}

#[test]
fn cache_evicts_least_recently_used_over_weight_limit() {
    let mut c = VerdictCache::with_limits(10, 320);
    c.insert(key("h", "a.txt"), HookExecution::Accepted);
    c.insert(key("h", "b.txt"), HookExecution::Accepted);
    assert_eq!(c.len(), 2);
    assert_eq!(c.total_weight(), 260);
    assert_eq!(c.get(&key("h", "a.txt")), Some(HookExecution::Accepted));
    c.insert(key("h", "c.txt"), HookExecution::Accepted);
    assert_eq!(c.len(), 2);
    assert!(c.total_weight() <= 320);
    assert_eq!(c.get(&key("h", "b.txt")), None);
    assert_eq!(c.get(&key("h", "a.txt")), Some(HookExecution::Accepted));
    assert_eq!(c.get(&key("h", "c.txt")), Some(HookExecution::Accepted));
}

#[test]
fn cache_entry_limit_and_oversized_entry() {
    let mut c = VerdictCache::with_limits(1, 1000);
    c.insert(key("h", "a"), HookExecution::Accepted);
    c.insert(key("h", "b"), HookExecution::Accepted);
    assert_eq!(c.len(), 1);
    assert_eq!(c.get(&key("h", "a")), None);
    let mut small = VerdictCache::with_limits(10, 100);
    small.insert(key("h", "a"), HookExecution::Accepted);
    assert_eq!(small.len(), 0);
    assert_eq!(small.total_weight(), 0);
}

#[test]
fn cache_replaces_value_of_same_key() {
    let mut c = VerdictCache::with_limits(10, 10_000);
    c.insert(key("h", "a"), HookExecution::Accepted);
    let r = HookExecution::Rejected(HookRejectionInfo::new("no".to_string(), String::new()));
    c.insert(key("h", "a"), r.clone());
    assert_eq!(c.len(), 1);
    assert_eq!(c.get(&key("h", "a")), Some(r));
}

#[test]
fn file_helpers_read_the_content_store() {
    let mut store = InMemoryFileContentStore::new();
    store.insert((cs(1), "a".to_string()), (FileType::Executable, b"hello world".to_vec()));
    store.insert((cs(1), "bin".to_string()), (FileType::Regular, vec![0xff, 0x00]));
    let a = HookFile::new("a".to_string(), cs(1), ChangedFileType::Added);
    assert_eq!(a.len(&store), Ok(11));
    assert_eq!(a.file_type(&store), Ok(FileType::Executable));
    assert_eq!(a.file_content(&store), Ok(b"hello world".to_vec()));
    assert_eq!(a.contains_string(&store, "o w"), Ok(true));
    assert_eq!(a.contains_string(&store, "World"), Ok(false));
    let bin = HookFile::new("bin".to_string(), cs(1), ChangedFileType::Modified);
    assert_eq!(bin.contains_string(&store, "x"), Err(ErrorKind::InvalidUtf8("bin".to_string())));
    let missing = HookFile::new("gone".to_string(), cs(1), ChangedFileType::Added);
    assert_eq!(missing.len(&store), Err(ErrorKind::NoFileContent(cs(1), "gone".to_string())));
    assert_eq!(
        missing.file_content(&store),
        Err(ErrorKind::NoFileContent(cs(1), "gone".to_string()))
    );
    let hcs = HookChangeset::new(
        "me".to_string(),
        vec![a],
        "msg".to_string(),
        HookChangesetParents::One("abc".to_string()),
        cs(1),
    );
    assert_eq!(hcs.file_content(&store, &"a".to_string()), Some(b"hello world".to_vec()));
    assert_eq!(hcs.file_content(&store, &"gone".to_string()), None);
}

#[test]
fn snapshot_decodes_author_and_comments() {
    let m: Manager<DenyBigMsg, NoSecrets> = manager_with(
        vec![(2, changeset("zoë".as_bytes(), "naïve", vec![("p", ChangedFileType::Deleted)]))],
        vec![],
    );
    let hcs = m.get_hook_changeset(cs(2)).unwrap();
    assert_eq!(hcs.author, "zoë");
    assert_eq!(hcs.comments, "naïve");
    assert_eq!(hcs.files.len(), 1);
    assert_eq!(hcs.files[0].path, "p");
    assert_eq!(hcs.parents, HookChangesetParents::NoParents);
}

#[test]
fn rejection_info_keeps_its_texts() {
    let info = HookRejectionInfo::new("short".to_string(), "long".to_string());
    assert_eq!(info.description, "short");
    assert_eq!(info.long_description, "long");
}

#[test]
fn changeset_collector_pairs_names_with_results() {
    let names = vec!["a".to_string(), "b".to_string()];
    let rejected = HookExecution::Rejected(HookRejectionInfo::new("no".to_string(), "never".to_string()));
    let results = vec![Ok(HookExecution::Accepted), Ok(rejected.clone())];
    let v = collect_changeset_verdicts(cs(3), &names, &results).unwrap();
    assert_eq!(v.len(), 2);
    assert_eq!(v[0].0.hook_name, "a");
    assert_eq!(v[0].0.cs_id, cs(3));
    assert_eq!(v[0].1, HookExecution::Accepted);
    assert_eq!(v[1].0.hook_name, "b");
    assert_eq!(v[1].1, rejected);
    let empty: Vec<Result<HookExecution, String>> = vec![];
    assert_eq!(collect_changeset_verdicts(cs(3), &vec![], &empty).unwrap().len(), 0);
}

#[test]
fn changeset_collector_reports_first_failure() {
    let names = vec!["a".to_string(), "b".to_string(), "c".to_string()];
    let results = vec![
        Ok(HookExecution::Accepted),
        Err("first".to_string()),
        Err("second".to_string()),
    ];
    assert_eq!(
        collect_changeset_verdicts(cs(3), &names, &results).unwrap_err(),
        ErrorKind::HookRunFailed { hook_name: "b".to_string(), cause: "first".to_string() }
    );
}

#[test]
fn file_collector_pairs_keys_with_results() {
    let rejected = HookExecution::Rejected(HookRejectionInfo::new("x".to_string(), String::new()));
    let ok = vec![
        (key("h", "a"), Ok(HookExecution::Accepted)),
        (key("h", "b"), Ok(rejected.clone())),
    ];
    let v = collect_file_verdicts(&ok).unwrap();
    assert_eq!(v.len(), 2);
    assert_eq!(v[0].0.file.path, "a");
    assert_eq!(v[0].1, HookExecution::Accepted);
    assert_eq!(v[1].0.file.path, "b");
    assert_eq!(v[1].1, rejected);
    let failing = vec![
        (key("h", "a"), Ok(HookExecution::Accepted)),
        (key("h", "b"), Err(ErrorKind::NoSuchHook("h".to_string()))),
        (key("h", "c"), Err(ErrorKind::NoSuchHook("other".to_string()))),
    ];
    assert_eq!(collect_file_verdicts(&failing).unwrap_err(), ErrorKind::NoSuchHook("h".to_string()));
}

#[test]
fn failing_file_hook_reaches_the_caller() {
    let mut m: Manager<DenyBigMsg, NoSecrets> = manager_with(
        vec![(5, changeset(b"j", "msg", vec![("ok.txt", ChangedFileType::Added), ("gone.txt", ChangedFileType::Modified)]))],
        vec![(5, "ok.txt", "fine")],
    );
    m.register_file_hook("no-secrets", NoSecrets, HookConfig::new(None));
    m.set_hooks_for_bookmark("main".to_string(), vec!["no-secrets".to_string()]);
    let r = m.run_file_hooks_for_bookmark(cs(5), &"main".to_string(), None);
    assert_eq!(
        r.unwrap_err(),
        ErrorKind::HookRunFailed {
            hook_name: "no-secrets".to_string(),
            cause: format!("{:?}", ErrorKind::NoFileContent(cs(5), "gone.txt".to_string())),
        }
    );
}

#[test]
fn file_verdict_ids_carry_change_kind() {
    let mut m: Manager<DenyBigMsg, NoSecrets> = manager_with(
        vec![(6, changeset(b"k", "msg", vec![("a", ChangedFileType::Added), ("m", ChangedFileType::Modified)]))],
        vec![(6, "a", "1"), (6, "m", "2")],
    );
    m.register_file_hook("no-secrets", NoSecrets, HookConfig::new(None));
    m.set_hooks_for_bookmark("main".to_string(), vec!["no-secrets".to_string()]);
    let v = m.run_file_hooks_for_bookmark(cs(6), &"main".to_string(), None).unwrap();
    assert_eq!(v[0].0.file.ty, ChangedFileType::Added);
    assert_eq!(v[1].0.file.ty, ChangedFileType::Modified);
}
