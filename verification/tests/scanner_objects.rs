use git_share_obj::scanner::{
    find_duplicates, find_git_repositories, group_by_device, scan_git_objects,
    select_source_and_duplicates, FileMeta, FsEntry, GitObjectInfo,
};

const HASH_FILE: &str = "cdef1234567890abcdef1234567890abcdef12";
const FULL_HASH: &str = "abcdef1234567890abcdef1234567890abcdef12";

fn dir_entry(path: &str) -> FsEntry {
    FsEntry { path: path.to_string(), is_dir: true, is_file: false, meta: None }
}

fn file_entry(path: &str, created: u64, size: u64, inode: u64, device: u64) -> FsEntry {
    FsEntry {
        path: path.to_string(),
        is_dir: false,
        is_file: true,
        meta: Some(FileMeta { created, size, inode, device }),
    }
}

fn record(path: &str, hash: &str, created: u64, size: u64, inode: u64, device: u64) -> GitObjectInfo {
    GitObjectInfo {
        path: path.to_string(),
        hash: hash.to_string(),
        created,
        size,
        inode,
        device,
    }
}

fn repo_listing(repo: &str, created: u64, inode: u64, device: u64) -> Vec<FsEntry> {
    vec![
        dir_entry(repo),
        dir_entry(&format!("{}/.git", repo)),
        dir_entry(&format!("{}/.git/objects", repo)),
        dir_entry(&format!("{}/.git/objects/ab", repo)),
        file_entry(
            &format!("{}/.git/objects/ab/{}", repo, HASH_FILE),
            created,
            4,
            inode,
            device,
        ),
    ]
}

#[test]
fn test_git_object_info_from_path_valid() {
    let path = format!("tmp/.git/objects/ab/{}", HASH_FILE);
    let info = GitObjectInfo::from_path(&path, 1, 4, 10, 1);

    assert!(info.is_some());
    let info = info.unwrap();
    assert_eq!(info.hash, FULL_HASH);
    assert_eq!(info.size, 4);
}

#[test]
fn test_git_object_info_from_path_invalid_dir_length() {
    let path = "tmp/abc/def1234567890abcdef1234567890abcdef12";
    assert!(GitObjectInfo::from_path(path, 1, 0, 10, 1).is_none());
}

#[test]
fn test_git_object_info_from_path_invalid_file_length() {
    let path = "tmp/ab/short";
    assert!(GitObjectInfo::from_path(path, 1, 0, 10, 1).is_none());
}

#[test]
fn test_git_object_info_from_path_invalid_hex() {
    let path = format!("tmp/zz/{}", HASH_FILE);
    assert!(GitObjectInfo::from_path(&path, 1, 0, 10, 1).is_none());
}

#[test]
fn test_scan_git_objects() {
    let entries = repo_listing("tmp", 1, 10, 1);
    let objects = scan_git_objects(&entries);

    assert_eq!(objects.len(), 1);
    assert_eq!(objects[0].hash, FULL_HASH);
}

#[test]
fn test_scan_git_objects_excludes_pack() {
    let mut entries = vec![
        dir_entry("tmp"),
        dir_entry("tmp/.git"),
        dir_entry("tmp/.git/objects"),
        dir_entry("tmp/.git/objects/pack"),
        file_entry("tmp/.git/objects/pack/pack-abc123.pack", 1, 100, 11, 1),
    ];
    entries.push(dir_entry("tmp/.git/objects/ab"));
    entries.push(file_entry(&format!("tmp/.git/objects/ab/{}", HASH_FILE), 1, 4, 10, 1));

    let objects = scan_git_objects(&entries);
    assert_eq!(objects.len(), 1);
}

#[test]
fn test_scan_git_objects_excludes_info() {
    let mut entries = vec![
        dir_entry("tmp"),
        dir_entry("tmp/.git"),
        dir_entry("tmp/.git/objects"),
        dir_entry("tmp/.git/objects/info"),
        file_entry("tmp/.git/objects/info/packs", 1, 100, 11, 1),
    ];
    entries.push(dir_entry("tmp/.git/objects/ab"));
    entries.push(file_entry(&format!("tmp/.git/objects/ab/{}", HASH_FILE), 1, 4, 10, 1));

    let objects = scan_git_objects(&entries);
    assert_eq!(objects.len(), 1);
}

#[test]
fn test_scan_git_objects_ignores_files_outside_object_store() {
    let mut entries = repo_listing("tmp/repo1", 1, 10, 1);
    entries.push(dir_entry("tmp/other/ab"));
    entries.push(file_entry(&format!("tmp/other/ab/{}", HASH_FILE), 1, 4, 12, 1));
    entries.push(file_entry(&format!("tmp/repo1/.git/objects/ab/aa/{}", HASH_FILE), 1, 4, 13, 1));

    let objects = scan_git_objects(&entries);
    assert_eq!(objects.len(), 1);
}

#[test]
fn test_scan_git_objects_skips_unreadable_metadata() {
    let mut entries = repo_listing("tmp/repo1", 1, 10, 1);
    entries.push(FsEntry {
        path: format!("tmp/repo1/.git/objects/ab/{}", "dddd1234567890abcdef1234567890abcdef12"),
        is_dir: false,
        is_file: true,
        meta: None,
    });

    let objects = scan_git_objects(&entries);
    assert_eq!(objects.len(), 1);
}

#[test]
fn test_scan_multiple_git_repos() {
    let mut entries = repo_listing("tmp/repo1", 1, 10, 1);
    entries.extend(repo_listing("tmp/repo2", 2, 20, 1));

    let objects = scan_git_objects(&entries);
    assert_eq!(objects.len(), 2);
}

#[test]
fn test_find_git_repositories_single() {
    let entries = repo_listing("tmp/repo1", 1, 10, 1);
    let repos = find_git_repositories(&entries);

    assert_eq!(repos.len(), 1);
    assert_eq!(repos[0], "tmp/repo1");
}

#[test]
fn test_find_git_repositories_multiple_and_unique() {
    let mut entries = repo_listing("tmp/repo1", 1, 10, 1);
    entries.extend(repo_listing("tmp/nested/repo2", 2, 20, 1));
    entries.extend(repo_listing("tmp/repo1", 1, 10, 1));

    let repos = find_git_repositories(&entries);
    assert_eq!(repos.len(), 2);
    assert!(repos.contains(&"tmp/repo1".to_string()));
    assert!(repos.contains(&"tmp/nested/repo2".to_string()));
}

#[test]
fn test_find_git_repositories_sorted() {
    let mut entries = repo_listing("tmp/zebra", 1, 10, 1);
    entries.extend(repo_listing("tmp/alpha", 2, 20, 1));

    let repos = find_git_repositories(&entries);
    assert_eq!(repos, vec!["tmp/alpha", "tmp/zebra"]);
}

#[test]
fn test_group_by_device_empty() {
    let objects: Vec<GitObjectInfo> = vec![];
    let device_groups = group_by_device(objects);
    assert!(device_groups.is_empty());
}

#[test]
fn test_group_by_device_single_device() {
    let objects = vec![
        record("repo1", FULL_HASH, 1, 4, 10, 1),
        record("repo2", FULL_HASH, 2, 4, 11, 1),
        record("repo3", FULL_HASH, 3, 4, 12, 1),
    ];
    let device_groups = group_by_device(objects);

    assert_eq!(device_groups.len(), 1);
    let first_group: Vec<_> = device_groups.into_values().next().unwrap();
    assert_eq!(first_group.len(), 3);
}

#[test]
fn test_group_by_device_two_devices() {
    let objects = vec![
        record("a", FULL_HASH, 1, 4, 10, 1),
        record("b", FULL_HASH, 2, 4, 10, 2),
    ];
    let device_groups = group_by_device(objects);

    assert_eq!(device_groups.len(), 2);
    assert_eq!(device_groups[&1].len(), 1);
    assert_eq!(device_groups[&2].len(), 1);
}

#[test]
fn test_find_duplicates_no_duplicates() {
    let objects = vec![
        record("a", "abcdef1234567890abcdef1234567890abcdef12", 1, 4, 10, 1),
        record("b", "cdef12345678901234567890123456789012abcd", 2, 4, 11, 1),
    ];
    let duplicates = find_duplicates(objects);
    assert!(duplicates.is_empty());
}

#[test]
fn test_find_duplicates_with_duplicates() {
    let objects = vec![
        record("repo1", FULL_HASH, 1, 4, 10, 1),
        record("repo2", FULL_HASH, 2, 4, 11, 1),
    ];
    let duplicates = find_duplicates(objects);

    assert_eq!(duplicates.len(), 1);
    assert_eq!(duplicates[0].duplicates.len(), 1);
}

#[test]
fn test_find_duplicates_all_independent_files() {
    let objects = vec![
        record("repo1", FULL_HASH, 1, 4, 10, 1),
        record("repo2", FULL_HASH, 2, 4, 11, 1),
        record("repo3", FULL_HASH, 3, 4, 12, 1),
    ];
    let duplicates = find_duplicates(objects);

    assert_eq!(duplicates.len(), 1);
    assert_eq!(duplicates[0].duplicates.len(), 2);
}

#[test]
fn test_find_duplicates_fresh_source_is_earliest() {
    let objects = vec![
        record("repo2", FULL_HASH, 20, 4, 11, 1),
        record("repo1", FULL_HASH, 10, 4, 10, 1),
        record("repo3", FULL_HASH, 30, 4, 12, 1),
    ];
    let duplicates = find_duplicates(objects);

    assert_eq!(duplicates.len(), 1);
    assert_eq!(duplicates[0].source.path, "repo1");
    assert_eq!(duplicates[0].duplicates.len(), 2);
}

#[test]
fn test_find_duplicates_existing_hardlink_is_source() {
    // repo1 is oldest but alone; repo2 and repo3 share one physical
    // file, so their cluster wins and repo1 is the only duplicate.
    let objects = vec![
        record("repo1", FULL_HASH, 1, 4, 10, 1),
        record("repo2", FULL_HASH, 2, 4, 20, 1),
        record("repo3", FULL_HASH, 3, 4, 20, 1),
    ];
    let duplicates = find_duplicates(objects);

    assert_eq!(duplicates.len(), 1);
    assert_eq!(duplicates[0].duplicates.len(), 1);
    let source_path = duplicates[0].source.path.as_str();
    assert!(source_path == "repo2" || source_path == "repo3");
    assert_eq!(duplicates[0].duplicates[0].path, "repo1");
}

#[test]
fn test_find_duplicates_all_already_linked() {
    let objects = vec![
        record("repo1", FULL_HASH, 1, 4, 10, 1),
        record("repo2", FULL_HASH, 2, 4, 10, 1),
    ];
    let duplicates = find_duplicates(objects);
    assert!(duplicates.is_empty());
}

#[test]
fn test_find_duplicates_add_new_file_to_existing_group() {
    // repo1 and repo2 share one physical file; repo3 and repo4 are
    // later, independent copies of the same content.
    let objects = vec![
        record("repo1", FULL_HASH, 1, 4, 10, 1),
        record("repo2", FULL_HASH, 1, 4, 10, 1),
        record("repo3", FULL_HASH, 5, 4, 30, 1),
        record("repo4", FULL_HASH, 6, 4, 40, 1),
    ];
    let duplicates = find_duplicates(objects);

    assert_eq!(duplicates.len(), 1);
    assert_eq!(duplicates[0].duplicates.len(), 2);
    let source_path = duplicates[0].source.path.as_str();
    assert!(source_path == "repo1" || source_path == "repo2");
}

#[test]
fn test_find_duplicates_never_mixes_devices() {
    // Same hash on two devices, handed in per device as the contract
    // asks: neither device alone has anything to replace.
    let on_dev1 = vec![record("a", FULL_HASH, 1, 4, 10, 1)];
    let on_dev2 = vec![record("b", FULL_HASH, 2, 4, 10, 2)];

    assert!(find_duplicates(on_dev1).is_empty());
    assert!(find_duplicates(on_dev2).is_empty());
}

#[test]
fn test_select_source_and_duplicates_single_file() {
    let files = vec![record("a", FULL_HASH, 1, 4, 10, 1)];
    assert!(select_source_and_duplicates(&files).is_none());
}

#[test]
fn test_select_source_and_duplicates_two_clusters() {
    let files = vec![
        record("a", FULL_HASH, 5, 4, 10, 1),
        record("b", FULL_HASH, 3, 4, 10, 1),
        record("c", FULL_HASH, 1, 4, 20, 1),
    ];
    let group = select_source_and_duplicates(&files).unwrap();
    // The two-member cluster wins; within it the earlier record does.
    assert_eq!(group.source.path, "b");
    assert_eq!(group.duplicates.len(), 1);
    assert_eq!(group.duplicates[0].path, "c");
}

#[test]
fn test_git_object_info_from_path_accepts_uppercase_hex() {
    let path = "tmp/AB/CDEF1234567890ABCDEF1234567890ABCDEF12";
    let info = GitObjectInfo::from_path(path, 1, 4, 10, 1).unwrap();
    assert_eq!(info.hash, "ABCDEF1234567890ABCDEF1234567890ABCDEF12");
}

#[test]
fn test_git_object_info_from_path_rejects_forty_char_file() {
    let path = "tmp/ab/cdef1234567890abcdef1234567890abcdef1234";
    assert!(GitObjectInfo::from_path(path, 1, 4, 10, 1).is_none());
}
