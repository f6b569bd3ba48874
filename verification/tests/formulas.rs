use weasel_vision::commands::dict::{
    pick_snapshot,
    add_dict_entry, batch_delete_low_frequency, count_snapshot_entries, delete_entries, export_user_dict,
    load_user_dict_entries, parse_snapshot_line, reported_entry_count, update_entry_frequency, DictEntryKey,
    NewDictEntry,
};
use weasel_vision::rime::backup::{stale_backups, write_decision, WriteResult, MAX_TIMESTAMPED_BACKUPS};
use weasel_vision::rime::color_scheme::{color_from_int, luminance_is_below, RimeColorScheme};
use weasel_vision::rime::color::RimeColor;
use weasel_vision::rime::grammar::{format_bytes, GrammarModel};
use weasel_vision::rime::utils::{checked_dir_size, count_files, dir_size, DirNode, DirTree};
use weasel_vision::rime::yaml::float_bits_truncated;

fn s(x: &str) -> String {
    x.to_string()
}

fn float_format(bytes: i64) -> String {
    const KB: i64 = 1024;
    const MB: i64 = KB * 1024;
    const GB: i64 = MB * 1024;
    if bytes >= GB {
        format!("{:.1} GB", bytes as f64 / GB as f64)
    } else if bytes >= MB {
        format!("{:.1} MB", bytes as f64 / MB as f64)
    } else if bytes >= KB {
        format!("{:.1} KB", bytes as f64 / KB as f64)
    } else {
        format!("{} B", bytes)
    }
}

#[test]
fn format_bytes_exact_values() {
    assert_eq!(format_bytes(0), "0 B");
    assert_eq!(format_bytes(1023), "1023 B");
    assert_eq!(format_bytes(-5), "-5 B");
    assert_eq!(format_bytes(1024), "1.0 KB");
    assert_eq!(format_bytes(1280), "1.2 KB");
    assert_eq!(format_bytes(1331), "1.3 KB");
    assert_eq!(format_bytes(1536), "1.5 KB");
    assert_eq!(format_bytes(1024 * 1024), "1.0 MB");
    assert_eq!(format_bytes(3 * 1024 * 1024 / 2), "1.5 MB");
    assert_eq!(format_bytes(1024 * 1024 * 1024), "1.0 GB");
    assert_eq!(format_bytes(i64::MAX), float_format(i64::MAX));
}

#[test]
fn format_bytes_agrees_with_float_formatting() {
    let mut b: i64 = 0;
    while b < 3 * 1024 * 1024 {
        assert_eq!(format_bytes(b), float_format(b), "at {}", b);
        b += 1;
    }
    let mut b: i64 = 1;
    while b < i64::MAX / 3 {
        for d in [-1i64, 0, 1, 51, 52, 102, 103] {
            let x = b + d;
            if x >= 0 {
                assert_eq!(format_bytes(x), float_format(x), "at {}", x);
            }
        }
        b = b * 3 + 7;
    }
}

#[test]
fn grammar_model_shows_its_size() {
    let m = GrammarModel::new(s("zh-hans"), s("/r/zh-hans.gram"), 2048);
    assert_eq!(m.display_name, "zh-hans");
    assert_eq!(m.formatted_size, "2.0 KB");
}

#[test]
fn luminance_agrees_with_the_double_formula_everywhere() {
    for r in 0..=255u32 {
        for g in 0..=255u32 {
            for b in 0..=255u32 {
                let lum = (0.299 * r as f64 + 0.587 * g as f64 + 0.114 * b as f64) / 255.0;
                assert_eq!(luminance_is_below(r as u8, g as u8, b as u8), lum < 0.4, "at {} {} {}", r, g, b);
            }
        }
    }
}

#[test]
fn scheme_darkness() {
    let mut sch = RimeColorScheme::empty();
    sch.name = s("Solarized DARK");
    assert!(sch.is_dark());
    sch.name = s("paper");
    assert!(!sch.is_dark());
    sch.back_color = Some(RimeColor::new(20, 20, 20, 255));
    assert!(sch.is_dark());
    sch.back_color = Some(RimeColor::new(250, 250, 250, 255));
    assert!(!sch.is_dark());
    sch.back_color = Some(RimeColor::new(102, 102, 102, 255));
    assert!(sch.is_dark());
}

#[test]
fn float_truncation_matches_the_cast() {
    let samples: [f64; 16] = [
        0.0, -0.0, 1.5, -1.5, 2.9999, -2.9999, 1e18, -1e18, 9.3e18, -9.3e18, f64::NAN, f64::INFINITY,
        f64::NEG_INFINITY, 4503599627370497.0, 0.999999, 123456789.987,
    ];
    for x in samples {
        assert_eq!(float_bits_truncated(x.to_bits()), x as i64, "at {}", x);
    }
    let mut bits: u64 = 1;
    for _ in 0..20000 {
        bits = bits.wrapping_mul(6364136223846793005).wrapping_add(1442695040888963407);
        assert_eq!(float_bits_truncated(bits), f64::from_bits(bits) as i64);
    }
}

#[test]
fn colors_from_integers() {
    assert_eq!(color_from_int(0xFF0000), Some(RimeColor::new(0, 0, 255, 255)));
    assert_eq!(color_from_int(0x80112233), Some(RimeColor::new(0x33, 0x22, 0x11, 0x80)));
    assert_eq!(color_from_int(-1), None);
    assert_eq!(color_from_int(0x1_0000_0000), None);
}

#[test]
fn directory_size_and_count() {
    let inner = DirTree { entries: vec![DirNode::File(Some(10)), DirNode::File(None)] };
    let tree = DirTree { entries: vec![DirNode::File(Some(5)), DirNode::Dir(inner), DirNode::File(Some(7))] };
    assert_eq!(dir_size(&tree), 22);
    assert_eq!(count_files(&tree), 4);
}

#[test]
fn writes_only_what_changed() {
    assert_eq!(write_decision(None, "hello"), WriteResult::Written);
    assert_eq!(write_decision(Some("hello"), "hello"), WriteResult::Unchanged);
    assert_eq!(write_decision(Some("hell"), "hello"), WriteResult::Written);
}

#[test]
fn only_the_newest_backups_are_kept() {
    let mut names = Vec::new();
    for i in 0..13 {
        names.push(format!("default.custom.202401{:02}-000000.000.yaml", i + 1));
    }
    let stale = stale_backups(names, MAX_TIMESTAMPED_BACKUPS);
    assert_eq!(stale.len(), 3);
    assert_eq!(stale[0], "default.custom.20240103-000000.000.yaml");
    assert_eq!(stale[2], "default.custom.20240101-000000.000.yaml");
    assert!(stale_backups(vec![s("a"), s("b")], 10).is_empty());
}

#[test]
fn snapshot_lines() {
    let e = parse_snapshot_line("你好\tni hao\tc=12 d=0.5 t=100").unwrap();
    assert_eq!(e.word, "你好");
    assert_eq!(e.code, "ni hao");
    assert_eq!(e.frequency, 12);
    assert_eq!(e.commit_count, 12);
    let e = parse_snapshot_line("a\tb\t42").unwrap();
    assert_eq!(e.frequency, 42);
    let e = parse_snapshot_line("a\tb\tx=1").unwrap();
    assert_eq!(e.frequency, 0);
    assert!(parse_snapshot_line("a\tb").is_none());
    assert!(parse_snapshot_line("\tb\t1").is_none());
}

const SNAPSHOT: &str = "# header\n你好\tni hao\tc=12\n世界\tshi jie\tc=3\n\nabc\tabc\tc=40\n";

#[test]
fn dictionary_pages_sorts_and_searches() {
    let r = load_user_dict_entries(SNAPSHOT, 0, 2, &s("frequency_desc"), None).unwrap();
    assert_eq!(r.total, 3);
    assert_eq!(r.total_frequency, 55);
    assert_eq!(r.entries.len(), 2);
    assert_eq!(r.entries[0].word, "abc");
    assert_eq!(r.entries[1].word, "你好");
    let r = load_user_dict_entries(SNAPSHOT, 1, 2, &s("frequency_asc"), None).unwrap();
    assert_eq!(r.entries.len(), 1);
    assert_eq!(r.entries[0].word, "abc");
    let r = load_user_dict_entries(SNAPSHOT, 0, 10, &s("word_asc"), Some(s("SHI"))).unwrap();
    assert_eq!(r.total, 1);
    assert_eq!(r.entries[0].word, "世界");
    let r = load_user_dict_entries(SNAPSHOT, 0, 10, &s("code_asc"), None).unwrap();
    assert_eq!(r.entries[0].code, "abc");
    assert_eq!(r.entries[2].code, "shi jie");
    let big = "a\ta\t9223372036854775807\nb\tb\t1\n";
    assert!(load_user_dict_entries(big, 0, 10, &s("word_asc"), None).is_none());
}

#[test]
fn dictionary_edits() {
    let keys = vec![DictEntryKey { word: s("世界"), code: s("shi jie") }];
    let (text, n) = delete_entries(SNAPSHOT, &keys);
    assert_eq!(n, 1);
    assert_eq!(text, "# header\n你好\tni hao\tc=12\n\nabc\tabc\tc=40\n");
    let (text, n) = batch_delete_low_frequency(SNAPSHOT, 10);
    assert_eq!(n, 1);
    assert!(!text.contains("世界"));
    let text = update_entry_frequency(SNAPSHOT, &s("abc"), &s("abc"), 7);
    assert!(text.contains("abc\tabc\tc=7"));
    let (out, n) = export_user_dict(SNAPSHOT);
    assert_eq!(n, 3);
    assert!(out.starts_with("你好\tni hao\t12\n"));
    assert_eq!(count_snapshot_entries(SNAPSHOT), 3);
    let added = add_dict_entry("x\ty\tc=1\n", &NewDictEntry { word: s("新"), code: s("xin"), frequency: 5 }).unwrap();
    assert!(added.starts_with("x\ty\tc=1\n新\txin\t"));
    let dup = add_dict_entry(SNAPSHOT, &NewDictEntry { word: s("abc"), code: s("abc"), frequency: 5 });
    assert_eq!(dup.unwrap_err(), "Entry 'abc' with code 'abc' already exists");
    assert_eq!(reported_entry_count(0, 100), -1);
    assert_eq!(reported_entry_count(0, 0), 0);
    assert_eq!(reported_entry_count(4, 100), 4);
}

#[test]
fn checked_directory_sizes() {
    let inner = DirTree { entries: vec![DirNode::File(Some(5)), DirNode::File(None)] };
    let tree = DirTree { entries: vec![DirNode::File(Some(3)), DirNode::Dir(inner)] };
    assert_eq!(checked_dir_size(&tree), Some(8));
    let big = DirTree { entries: vec![DirNode::File(Some(i64::MAX)), DirNode::File(Some(1))] };
    assert_eq!(checked_dir_size(&big), None);
}

#[test]
fn snapshot_pick_takes_the_newest_of_all() {
    let f = |n: &str, t: i128| (n.to_string(), t);
    let legacy = vec![f("luna.a.txt", 5), f("terra.b.txt", 9), f("luna.c.txt", 7), f("luna.d.txt", 7)];
    let userdb = vec![f("x.txt", 1), f("y.bin", 8)];
    assert_eq!(pick_snapshot("luna", &vec![3, 8, 8], &legacy, &userdb), Some((0, 1)));
    assert_eq!(pick_snapshot("luna", &vec![], &legacy, &userdb), Some((1, 2)));
    assert_eq!(pick_snapshot("zzz", &vec![], &legacy, &userdb), Some((2, 0)));
    assert_eq!(pick_snapshot("zzz", &vec![], &legacy, &vec![f("y.bin", 8)]), None);
    // An older sync snapshot loses to a newer one elsewhere; a tie goes to the earlier source.
    assert_eq!(pick_snapshot("luna", &vec![0], &legacy, &userdb), Some((1, 2)));
    assert_eq!(pick_snapshot("luna", &vec![7], &legacy, &userdb), Some((0, 0)));
    assert_eq!(pick_snapshot("zzz", &vec![0], &legacy, &vec![f("x.txt", 1)]), Some((2, 0)));
}
