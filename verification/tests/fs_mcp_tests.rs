use alagent::fs_mcp::{
    check_copy, check_list_dir, check_read_file, check_read_image, check_search_root, check_write, check_zip,
    copy_report, create_dir_report, default_max_chars, default_max_entries, default_max_search_entries,
    delete_report, extraction_over_limit, image_data_uri, image_mime, image_too_large, move_report,
    empty_listing, normalize_pattern, unfinished_tail_len, plan_delete, plan_move, read_limit, render_file_text, sort_entries,
    unzip_summary, write_report, child_order, has_room, visit_child, ChildStep, Extraction, ClearTarget, DeleteAction, FileEntry, FileSystemServer,
};

fn entry(name: &str, kind: &str) -> FileEntry {
    FileEntry { name: name.into(), kind: kind.into(), size: 0, size_human: "0 B".into(), modified: String::new() }
}

#[test]
fn fs_defaults() {
    assert_eq!(default_max_chars(), 20000);
    assert_eq!(default_max_entries(), 200);
    assert_eq!(default_max_search_entries(), 100);
    let _server = FileSystemServer::new();
    let _other = FileSystemServer::default();
}

#[test]
fn read_limit_saturates() {
    assert_eq!(read_limit(10), 44);
    assert_eq!(read_limit(0), 4);
    assert_eq!(read_limit(usize::MAX), u64::MAX);
}

#[test]
fn file_text_is_cut_after_max_chars() {
    assert_eq!(render_file_text("hello".as_bytes().to_vec(), 10), "hello");
    assert_eq!(
        render_file_text("你好世界".as_bytes().to_vec(), 2),
        "你好\n\n[已截断: 共 4 字符，仅显示前 2 字符]"
    );
    let bad = vec![b'a', 0xff, b'b'];
    assert_eq!(render_file_text(bad, 100), "[警告: 文件不是合法 UTF-8，已按 lossy 解码]\na\u{FFFD}b");
}

#[test]
fn character_cut_by_the_read_limit_is_left_out() {
    // read_limit(1) is 8 bytes: two whole characters and two bytes of the third
    let cut = "你好世界".as_bytes()[..8].to_vec();
    assert_eq!(unfinished_tail_len(&cut), 2);
    assert_eq!(render_file_text(cut, 1), "你\n\n[已截断: 共 2 字符，仅显示前 1 字符]");
    // a file that really ends inside a character is still reported
    let short = vec![b'a', 0xe4];
    assert_eq!(unfinished_tail_len(&short), 1);
    assert_eq!(render_file_text(short, 100), "[警告: 文件不是合法 UTF-8，已按 lossy 解码]\na\u{FFFD}");
    assert_eq!(unfinished_tail_len(&"ab".as_bytes().to_vec()), 0);
    assert_eq!(unfinished_tail_len(&vec![0xf0, 0x9f, 0x98]), 3);
}

#[test]
fn read_checks() {
    assert_eq!(check_read_file("p", false, false), Err("文件不存在: p".to_string()));
    assert_eq!(check_read_file("p", true, true), Err("这是一个目录，请使用 list_files: p".to_string()));
    assert_eq!(check_read_file("p", true, false), Ok(()));
    assert_eq!(check_read_image("p", true, true), Err("这是一个目录，图片无法读取: p".to_string()));
    assert!(image_too_large(5 * 1024 * 1024 + 1));
    assert!(!image_too_large(5 * 1024 * 1024));
}

#[test]
fn image_types_and_data_uri() {
    assert_eq!(image_mime("PNG"), Ok("image/png"));
    assert_eq!(image_mime("jpeg"), Ok("image/jpeg"));
    assert_eq!(image_mime("Svg"), Ok("image/svg+xml"));
    assert_eq!(image_mime("TXT"), Err("不支持的图片格式: .txt".to_string()));
    assert_eq!(image_data_uri("image/png", &b"hi!".to_vec()), "data:image/png;base64,aGkh");
    assert_eq!(image_data_uri("image/png", &b"h".to_vec()), "data:image/png;base64,aA==");
    assert_eq!(image_data_uri("image/gif", &vec![0xfb, 0xff]), "data:image/gif;base64,+/8=");
    assert_eq!(image_data_uri("image/gif", &vec![]), "data:image/gif;base64,");
}

#[test]
fn write_and_create_reports() {
    assert_eq!(check_write("f", true, false), Err("文件已存在（如需覆盖请设置 overwrite=true）: f".to_string()));
    assert_eq!(check_write("f", true, true), Ok(()));
    assert_eq!(write_report("你好", "a.txt"), "已写入 2 字符到 a.txt");
    assert_eq!(write_report(&"x".repeat(1234), "b"), "已写入 1234 字符到 b");
    assert_eq!(create_dir_report("d"), "已创建目录: d");
}

#[test]
fn delete_plans() {
    assert_eq!(plan_delete("p", false, false, false, false), Err("路径不存在: p".to_string()));
    assert_eq!(plan_delete("p", true, true, true, false), Ok(DeleteAction::RemoveEmptyDir));
    assert_eq!(plan_delete("p", true, true, false, true), Ok(DeleteAction::RemoveDirAll));
    assert_eq!(plan_delete("p", true, true, false, false), Err("目录非空（如需递归删除请设置 recursive=true）: p".to_string()));
    assert_eq!(plan_delete("p", true, false, false, false), Ok(DeleteAction::RemoveFile));
    assert_eq!(delete_report("p"), "已删除: p");
}

#[test]
fn move_and_copy_plans() {
    assert_eq!(plan_move("a", "b", false, false, false, false), Err("源路径不存在: a".to_string()));
    assert_eq!(plan_move("a", "b", true, true, false, false), Err("目标已存在（如需覆盖请设置 overwrite=true）: b".to_string()));
    assert_eq!(plan_move("a", "b", true, true, true, true), Ok(ClearTarget::RemoveDirAll));
    assert_eq!(plan_move("a", "b", true, true, false, true), Ok(ClearTarget::RemoveFile));
    assert_eq!(plan_move("a", "b", true, false, false, false), Ok(ClearTarget::Nothing));
    assert_eq!(move_report("a", "b"), "已移动: a -> b");
    assert_eq!(check_copy("a", "b", false, false, false, false), Err("源文件不存在: a".to_string()));
    assert_eq!(check_copy("a", "b", true, true, false, false), Err("源路径是目录，请使用 move_file: a".to_string()));
    assert_eq!(check_copy("a", "b", true, false, true, false), Err("目标已存在（如需覆盖请设置 overwrite=true）: b".to_string()));
    assert_eq!(check_copy("a", "b", true, false, true, true), Ok(()));
    assert_eq!(copy_report("a", "b"), "已复制: a -> b");
}

#[test]
fn listing_and_search_helpers() {
    assert_eq!(check_list_dir("d", false, false, true), Err("路径不存在: d".to_string()));
    assert_eq!(check_list_dir("d", true, false, true), Err("不是目录: d".to_string()));
    assert_eq!(check_list_dir("d", true, true, true), Ok(10));
    assert_eq!(check_list_dir("d", true, true, false), Ok(0));
    assert_eq!(check_search_root("r", false), Err("根目录不存在或不是目录: r".to_string()));
    assert_eq!(normalize_pattern("src\\**\\*.rs"), "src/**/*.rs");
    assert_eq!(empty_listing(), "[]");
}

#[test]
fn entries_sorted_dirs_first_then_by_name() {
    let sorted = sort_entries(vec![entry("b", "file"), entry("z", "dir"), entry("a", "file"), entry("c", "dir")]);
    let names: Vec<&str> = sorted.iter().map(|e| e.name.as_str()).collect();
    assert_eq!(names, vec!["c", "z", "a", "b"]);
    let names2: Vec<String> = sort_entries(vec![entry("ab", "file"), entry("a", "file"), entry("B", "file")])
        .into_iter()
        .map(|e| e.name)
        .collect();
    assert_eq!(names2, vec!["B", "a", "ab"]);
}

#[test]
fn unzip_reports() {
    assert_eq!(check_zip("x.zip", false), Err("Zip file: x.zip does not exist".to_string()));
    assert!(extraction_over_limit(512 * 1024 * 1024 + 1));
    assert!(!extraction_over_limit(512 * 1024 * 1024));
    let names = vec!["a".to_string(), "b/".to_string()];
    assert_eq!(
        unzip_summary(&names, "12 B", "out"),
        "Extracted 2 files (12 B in total) to out\n\nContents:\n- a\n- b/\n"
    );
    let many: Vec<String> = (0..23).map(|i| format!("f{i}")).collect();
    let s = unzip_summary(&many, "1.0 KB", "d");
    assert!(s.ends_with("- f19\n... and 3 more files\n"));
    assert!(!s.contains("f20"));
}

#[test]
fn entries_with_same_key_keep_their_order() {
    let mut first = entry("same", "file");
    first.size = 1;
    let mut second = entry("same", "file");
    second.size = 2;
    let sorted = sort_entries(vec![entry("z", "file"), first, entry("a", "dir"), second]);
    let sizes: Vec<u64> = sorted.iter().filter(|e| e.name == "same").map(|e| e.size).collect();
    assert_eq!(sizes, vec![1, 2]);
    assert_eq!(sorted[0].name, "a");
    assert_eq!(sorted[3].name, "z");
}

#[test]
fn children_visited_by_folded_name() {
    let names: Vec<String> = vec!["B".into(), "a".into(), "C".into(), "b".into()];
    assert_eq!(child_order(&names), vec![1, 0, 3, 2]);
    assert!(child_order(&vec![]).is_empty());
}

#[test]
fn listing_steps() {
    assert!(has_room(0, 1));
    assert!(!has_room(1, 1));
    assert!(visit_child(5, 5, true, true, 0, 10) == ChildStep::Stop);
    assert!(visit_child(0, 5, false, true, 0, 10) == ChildStep::Skip);
    assert!(visit_child(0, 5, true, true, 0, 10) == ChildStep::AddAndDescend);
    assert!(visit_child(0, 5, true, true, 10, 10) == ChildStep::Add);
    assert!(visit_child(4, 5, true, true, 0, 10) == ChildStep::Add);
    assert!(visit_child(0, 5, true, false, 0, 10) == ChildStep::Add);
}

#[test]
fn extraction_counts_names_and_bytes() {
    let mut x = Extraction::new();
    assert!(!x.record("a/".into(), 0));
    assert!(!x.record("a/b.txt".into(), 10));
    assert_eq!(x.total(), 10);
    assert_eq!(x.summary("10 B", "out"), "Extracted 2 files (10 B in total) to out\n\nContents:\n- a/\n- a/b.txt\n");
    assert!(x.record("big".into(), 536870912));
    let mut y = Extraction::new();
    assert!(!y.record("x".into(), 536870912));
    assert!(y.record("y".into(), u64::MAX));
    assert_eq!(y.total(), u64::MAX);
}
