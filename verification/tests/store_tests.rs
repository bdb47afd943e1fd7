use remote_pass::store::{
    chosen_entry, entry_spans, fetch_command, list_command, menu_command, menu_entries,
    span_ends_with,
};
use remote_pass::text::chars_of;

fn by_the_standard_library(listing: &str) -> String {
    listing
        .lines()
        .filter(|name_or_dir| name_or_dir.ends_with(".gpg"))
        .collect::<Vec<&str>>()
        .join("\n")
        .replace(".gpg", "")
        .replace("./", "")
}

#[test]
fn listing_becomes_a_menu_of_names() {
    let listing = "\n.gpg-id\nmail\nmail/work.gpg\nmail/home.gpg\nbank.gpg\n.git\n.git/HEAD\n";
    assert_eq!(menu_entries(listing), "mail/work\nmail/home\nbank");
}

#[test]
fn directories_and_other_files_are_left_out() {
    assert_eq!(menu_entries("dir\ndir/sub\nnotes.txt\n.gitattributes\n"), "");
    assert_eq!(menu_entries("a.gpg.bak\nb.gpg\nc.GPG\n"), "b");
    assert_eq!(menu_entries(""), "");
    assert_eq!(menu_entries("gpg\n"), "");
}

#[test]
fn leading_dot_slash_is_dropped() {
    assert_eq!(menu_entries("./a.gpg\n./dir/b.gpg\n"), "a\ndir/b");
}

#[test]
fn every_occurrence_is_removed_not_only_the_ending() {
    assert_eq!(menu_entries("a.gpg.gpg\n"), "a");
    assert_eq!(menu_entries("x.gpgy/z.gpg\n"), "xy/z");
    assert_eq!(menu_entries("a/./b.gpg\n"), "a/b");
    assert_eq!(menu_entries(".gpg\n"), "");
    assert_eq!(menu_entries(".gpg\n.gpg\n"), "\n");
}

#[test]
fn second_removal_sees_what_the_first_left() {
    assert_eq!(menu_entries("a..gpg/b.gpg\n"), "ab");
    assert_eq!(menu_entries("..gpg/.gpg"), "");
}

#[test]
fn listing_with_carriage_returns() {
    assert_eq!(menu_entries("a.gpg\r\nb.gpg\r\n"), "a\nb");
    assert_eq!(menu_entries("a.gpg\r"), "");
}

#[test]
fn menu_is_what_the_standard_library_makes() {
    let listings = [
        "",
        "\n",
        ".gpg",
        "a.gpg",
        "a.gpg\n",
        "a.gp\ng",
        "./.gpg\n./x.gpg",
        "....gpg///.gpg",
        ".g.gpgpg.gpg",
        ".gp.gpgg.gpg\n.gpg.gpg",
        "a\nb.gpg\nc\nd.gpg\n\ne.gpg",
        "one.gpg\r\ntwo\r\nthree.gpg",
        "\u{fc}ber.gpg\n\u{4e2d}/\u{6587}.gpg\n",
        "web/site.com.gpg\nweb\nweb/.gpg-id\nssh/host.gpg\n",
    ];
    for listing in listings {
        assert_eq!(menu_entries(listing), by_the_standard_library(listing), "{:?}", listing);
    }
}

#[test]
fn many_small_listings_give_the_menu_of_the_standard_library() {
    let alphabet = ['.', 'g', 'p', '/', '\n', 'a', '\r'];
    let mut state: u64 = 0x9e37_79b9_7f4a_7c15;
    for _ in 0..3000 {
        let mut listing = String::new();
        state = state.wrapping_mul(6364136223846793005).wrapping_add(1442695040888963407);
        let len = (state >> 33) % 30;
        for _ in 0..len {
            state = state.wrapping_mul(6364136223846793005).wrapping_add(1442695040888963407);
            listing.push(alphabet[((state >> 33) % 7) as usize]);
        }
        assert_eq!(menu_entries(&listing), by_the_standard_library(&listing), "{:?}", listing);
    }
}

#[test]
fn ending_is_looked_for_within_the_span() {
    let chars = chars_of("ab.gpgcd");
    let suffix = chars_of(".gpg");
    assert!(span_ends_with(&chars, 0, 6, &suffix));
    assert!(span_ends_with(&chars, 2, 6, &suffix));
    assert!(!span_ends_with(&chars, 3, 6, &suffix));
    assert!(!span_ends_with(&chars, 0, 5, &suffix));
    assert!(!span_ends_with(&chars, 0, 8, &suffix));
    assert!(span_ends_with(&chars, 4, 4, &Vec::new()));
}

#[test]
fn spans_of_entry_files_are_kept_in_order() {
    let chars = chars_of("a.gpg\nb\nc.gpg");
    let spans = vec![(0, 5), (6, 7), (8, 13)];
    assert_eq!(entry_spans(&chars, &spans), vec![(0, 5), (8, 13)]);
    assert_eq!(entry_spans(&chars, &vec![(6, 7)]), Vec::<(usize, usize)>::new());
}

#[test]
fn commands_are_spelled_out() {
    assert_eq!(list_command(), "find ~/.password-store/ -printf \"%P\\n\"");
    assert_eq!(fetch_command("mail/work"), "pass \"mail/work\"");
    assert_eq!(fetch_command(""), "pass \"\"");
    assert_eq!(menu_command("a\nb"), "echo \"a\nb\" | dmenu");
    assert_eq!(menu_command(""), "echo \"\" | dmenu");
}

#[test]
fn names_go_into_commands_as_they_are() {
    assert_eq!(fetch_command("my entry"), "pass \"my entry\"");
    assert_eq!(fetch_command("\u{fc}ber"), "pass \"\u{fc}ber\"");
    assert_eq!(fetch_command("a\"b"), "pass \"a\"b\"");
}

#[test]
fn chosen_entry_loses_its_line_ending() {
    assert_eq!(chosen_entry("mail/work\n"), "mail/work");
    assert_eq!(chosen_entry("mail/work"), "mail/work");
    assert_eq!(chosen_entry("mail/work \t\r\n\n"), "mail/work");
    assert_eq!(chosen_entry("  mail work  "), "  mail work");
    assert_eq!(chosen_entry("\n"), "");
    assert_eq!(chosen_entry(""), "");
    assert_eq!(chosen_entry(" \u{a0}\u{3000}"), "");
}

#[test]
fn white_space_is_what_the_standard_library_calls_so() {
    for code in 0u32..=0x10ffff {
        if let Some(c) = char::from_u32(code) {
            let printed = format!("x{}", c);
            assert_eq!(chosen_entry(&printed), printed.trim_end(), "{:x}", code);
        }
    }
}

#[test]
fn names_without_dots_make_the_menu_as_they_are() {
    let names = ["alice", "mail/work", "bank accounts/main", "x", "deep/er/still"];
    let mut listing = String::from("\n");
    for name in names {
        listing.push_str(name);
        listing.push_str(".gpg\n");
        listing.push_str(name);
        listing.push_str("\n");
    }
    assert_eq!(menu_entries(&listing), names.join("\n"));
}
