use rls::args::parse_invocation;
use rls::entry::{classify, type_glyph, Category, DisplayMode, Entry, EntryType};
use rls::identity::fallback_name;
use rls::listing::{list, max_name_width, max_size_width, render_long_row, render_plain};
use rls::numfmt::{decimal_string, pad_left, pad_right};
use rls::perms::format_permissions;
use rls::strutil::{str_eq, str_le};
use rls::timefmt::format_time;

fn entry(name: &str, kind: EntryType) -> Entry {
    Entry {
        name: String::from(name),
        kind,
        mode_bits: 0o644,
        nlink: 1,
        uid: 0,
        gid: 0,
        size: 0,
        mtime: 0,
    }
}

#[test]
fn permissions_example() {
    assert_eq!(format_permissions(0o754), "rwxr-xr--");
}

#[test]
fn permissions_all_clear() {
    assert_eq!(format_permissions(0), "---------");
}

#[test]
fn permissions_all_set() {
    assert_eq!(format_permissions(0o777), "rwxrwxrwx");
}

#[test]
fn permissions_ignore_high_bits() {
    assert_eq!(format_permissions(0o100644), "rw-r--r--");
}

#[test]
fn glyphs() {
    assert_eq!(type_glyph(EntryType::Directory), "d");
    assert_eq!(type_glyph(EntryType::File), "-");
    assert_eq!(type_glyph(EntryType::Symlink), "l");
    assert_eq!(type_glyph(EntryType::Socket), "?");
    assert_eq!(type_glyph(EntryType::Unknown), "?");
}

#[test]
fn classification() {
    assert_eq!(classify(EntryType::File), Category::File);
    assert_eq!(classify(EntryType::Directory), Category::Directory);
    assert_eq!(classify(EntryType::Symlink), Category::Symlink);
    assert_eq!(classify(EntryType::Socket), Category::Socket);
    assert_eq!(classify(EntryType::Fifo), Category::Fifo);
    assert_eq!(classify(EntryType::BlockDevice), Category::BlockOrCharDevice);
    assert_eq!(classify(EntryType::CharDevice), Category::BlockOrCharDevice);
    assert_eq!(classify(EntryType::Unknown), Category::Other);
}

#[test]
fn decimal_rendering() {
    assert_eq!(decimal_string(0), "0");
    assert_eq!(decimal_string(42), "42");
    assert_eq!(decimal_string(u64::MAX), "18446744073709551615");
}

#[test]
fn padding() {
    assert_eq!(pad_left("7", 4), "   7");
    assert_eq!(pad_right("ab", 5), "ab   ");
    assert_eq!(pad_left("longer", 3), "longer");
    assert_eq!(pad_right("longer", 3), "longer");
}

#[test]
fn string_order() {
    assert!(str_le("a.txt", "b.txt"));
    assert!(!str_le("b.txt", "a.txt"));
    assert!(str_le("abc", "abc"));
    assert!(str_le("ab", "abc"));
    assert!(!str_le("abc", "ab"));
    assert!(str_eq("same", "same"));
    assert!(!str_eq("same", "sane"));
}

#[test]
fn identity_fallback_unknown() {
    assert_eq!(fallback_name(12345, None), "12345");
}

#[test]
fn identity_fallback_known() {
    assert_eq!(fallback_name(12345, Some(String::from("alice"))), "alice");
}

#[test]
fn time_epoch() {
    assert_eq!(format_time(0).unwrap(), "Jan 01 00:00");
}

#[test]
fn time_known_instant() {
    assert_eq!(format_time(1431648000).unwrap(), "May 15 00:00");
}

#[test]
fn plain_listing_hides_dotfiles() {
    let entries = vec![
        entry("b.txt", EntryType::File),
        entry("a.txt", EntryType::File),
        entry(".hidden", EntryType::File),
    ];
    let out = list(entries, DisplayMode::Normal).unwrap();
    assert_eq!(out, "a.txt  b.txt  \n");
}

#[test]
fn all_listing_keeps_dotfiles() {
    let entries = vec![
        entry("b.txt", EntryType::File),
        entry("a.txt", EntryType::File),
        entry(".hidden", EntryType::File),
    ];
    let out = list(entries, DisplayMode::All).unwrap();
    assert_eq!(out, ".hidden  a.txt  b.txt  \n");
}

#[test]
fn empty_listing_is_one_newline() {
    let out = list(Vec::new(), DisplayMode::Normal).unwrap();
    assert_eq!(out, "\n");
}

#[test]
fn inert_modes_emit_empty_listing() {
    let entries = vec![entry("a.txt", EntryType::File)];
    assert_eq!(list(entries, DisplayMode::Recursive).unwrap(), "\n");
    let entries = vec![entry("a.txt", EntryType::File)];
    assert_eq!(list(entries, DisplayMode::HumanReadable).unwrap(), "\n");
}

#[test]
fn listing_twice_is_identical() {
    let make = || {
        vec![
            entry("delta", EntryType::Directory),
            entry("alpha", EntryType::File),
            entry("charlie", EntryType::Symlink),
        ]
    };
    let first = list(make(), DisplayMode::Normal).unwrap();
    let second = list(make(), DisplayMode::Normal).unwrap();
    assert_eq!(first, second);
    let first_long = list(make(), DisplayMode::Long).unwrap();
    let second_long = list(make(), DisplayMode::Long).unwrap();
    assert_eq!(first_long, second_long);
}

#[test]
fn long_row_layout() {
    let e = Entry {
        name: String::from("notes"),
        kind: EntryType::File,
        mode_bits: 0o644,
        nlink: 2,
        uid: 0,
        gid: 0,
        size: 123,
        mtime: 0,
    };
    let row = render_long_row(&e, "alice", "us", "Jan 01 00:00", "notes", 5, 8);
    assert_eq!(row, "-rw-r--r--  2 alice us      123 Jan 01 00:00 notes   ");
}

#[test]
fn long_rows_share_size_width() {
    let mut small = entry("small", EntryType::File);
    small.size = 5;
    let mut large = entry("a-large", EntryType::File);
    large.size = 123456;
    let out = list(vec![small, large], DisplayMode::Long).unwrap();
    let lines: Vec<&str> = out.lines().collect();
    // two rows and the closing empty line
    assert_eq!(lines.len(), 3);
    assert!(lines[2].is_empty());
    // the size column ends right before the fixed-width timestamp;
    // with equal-width names and identities the rows line up entirely
    let time_at_0 = lines[0].find("Jan 01 00:00").unwrap();
    let time_at_1 = lines[1].find("Jan 01 00:00").unwrap();
    assert_eq!(time_at_0, time_at_1);
}

#[test]
fn size_width_is_the_longest() {
    let mut a = entry("a", EntryType::File);
    a.size = 7;
    let mut b = entry("b", EntryType::File);
    b.size = 12345;
    assert_eq!(max_size_width(&vec![a, b]), 5);
    assert_eq!(max_size_width(&Vec::new()), 0);
}

#[test]
fn name_width_is_the_longest() {
    let names = vec![String::from("ab"), String::from("abcd"), String::from("c")];
    assert_eq!(max_name_width(&names), 4);
    assert_eq!(max_name_width(&Vec::new()), 0);
}

#[test]
fn render_plain_separators() {
    let names = vec![String::from("x"), String::from("y")];
    assert_eq!(render_plain(&names), "x  y  \n");
}

#[test]
fn too_many_arguments() {
    let args = vec![
        String::from("prog"),
        String::from("-l"),
        String::from("extra"),
    ];
    let err = parse_invocation(&args).unwrap_err();
    assert!(err.starts_with("ls: cannot access '"));
    assert_eq!(err, "ls: cannot access 'extra'");
}

#[test]
fn mode_selection() {
    let one = |s: &str| vec![String::from("prog"), String::from(s)];
    assert_eq!(parse_invocation(&one("-l")).unwrap(), DisplayMode::Long);
    assert_eq!(parse_invocation(&one("-a")).unwrap(), DisplayMode::All);
    assert_eq!(parse_invocation(&one("-R")).unwrap(), DisplayMode::Recursive);
    assert_eq!(
        parse_invocation(&one("-lh")).unwrap(),
        DisplayMode::HumanReadable
    );
    assert_eq!(parse_invocation(&one("-z")).unwrap(), DisplayMode::Normal);
    assert_eq!(
        parse_invocation(&vec![String::from("prog")]).unwrap(),
        DisplayMode::Normal
    );
}

#[test]
fn unrepresentable_time_is_the_only_error() {
    let mut e = entry("weird", EntryType::File);
    e.mtime = 1_000_000_000_000_000;
    let err = list(vec![e], DisplayMode::Long).unwrap_err();
    assert_eq!(
        err.message(),
        "ls: modification time out of calendar range"
    );
    // the same entry set lists fine outside long mode
    let mut e = entry("weird", EntryType::File);
    e.mtime = 1_000_000_000_000_000;
    assert!(list(vec![e], DisplayMode::Normal).is_ok());
}

#[test]
fn hidden_entry_needs_leading_dot() {
    let entries = vec![entry("a.b", EntryType::File), entry("c", EntryType::File)];
    let out = list(entries, DisplayMode::Normal).unwrap();
    assert_eq!(out, "a.b  c  \n");
}

#[test]
fn sort_handles_equal_names() {
    let entries = vec![
        entry("same", EntryType::File),
        entry("same", EntryType::File),
        entry("other", EntryType::File),
    ];
    let out = list(entries, DisplayMode::Normal).unwrap();
    assert_eq!(out, "other  same  same  \n");
}
