//! The remote credential store: the commands that list it and fetch from it,
//! and the menu of entry names made from its listing.

use vstd::prelude::*;
use vstd::string::StringExecFns;
use crate::lines::{
    cut, join_lines, join_spans, lemma_join_lines_front, line_spans, lines_of, spans_within,
};
use crate::text::{
    chars_of, holds_no, lemma_without_passes, lemma_without_takes, remove_all, starts_at,
    string_of, string_of_span, trimmed_end, trimmed_len, without,
};

verus! {

/// Whether a line of the listing names the file of an entry: such a name
/// ends in `.gpg`. Directories, and what else the store holds, do not.
pub open spec fn is_entry_file(line: Seq<char>) -> bool {
    ".gpg"@.is_suffix_of(line)
}

/// `is_entry_file` as a value, to filter with.
pub open spec fn entry_files() -> spec_fn(Seq<char>) -> bool {
    |line: Seq<char>| is_entry_file(line)
}

/// The menu made from a listing of the store: the lines that name entry
/// files, joined by line feeds, then without any `.gpg`, then without any `./`.
pub open spec fn menu_of(listing: Seq<char>) -> Seq<char> {
    without(without(join_lines(lines_of(listing).filter(entry_files())), ".gpg"@), "./"@)
}

/// The name of the entry that the file `line` holds: `line` without its ending.
pub open spec fn entry_name(line: Seq<char>) -> Seq<char> {
    line.take(line.len() - ".gpg"@.len())
}

/// `entry_name` as a value, to map with.
pub open spec fn entry_names() -> spec_fn(Seq<char>) -> Seq<char> {
    |line: Seq<char>| entry_name(line)
}

/// The names of the entries that a listing of the store shows, in its order.
pub open spec fn names_in(listing: Seq<char>) -> Seq<Seq<char>> {
    lines_of(listing).filter(entry_files()).map_values(entry_names())
}

/// Of entry files whose names hold no dot, joined behind a stretch that
/// holds none, the removal of the ending leaves the stretch and the names.
proof fn lemma_names_remain(stretch: Seq<char>, files: Seq<Seq<char>>)
    requires
        files.len() > 0,
        holds_no(stretch, '.'),
        forall|i: int| 0 <= i < files.len() ==> is_entry_file(#[trigger] files[i]),
        forall|i: int| 0 <= i < files.len() ==> holds_no(entry_name(#[trigger] files[i]), '.'),
    ensures
        without(stretch + join_lines(files), ".gpg"@) == stretch + join_lines(
            files.map_values(entry_names()),
        ),
    decreases files.len(),
{
    reveal_strlit(".gpg");
    let ending = ".gpg"@;
    let names = files.map_values(entry_names());
    let file = files[0];
    let name = entry_name(file);
    let others = files.skip(1);
    let other_names = others.map_values(entry_names());
    assert(files == seq![file] + others);
    assert(names == seq![name] + other_names);
    assert(file == name + ending);
    lemma_join_lines_front(file, others);
    lemma_join_lines_front(name, other_names);
    let before = stretch + name;
    assert(holds_no(before, '.'));
    if others.len() == 0 {
        let nothing = Seq::<char>::empty();
        assert(stretch + join_lines(files) == before + (ending + nothing));
        lemma_without_passes(before, ending + nothing, ending);
        lemma_without_takes(nothing, ending);
        assert(before + nothing == stretch + join_lines(names));
    } else {
        let feed = seq!['\n'];
        let tail = feed + join_lines(others);
        assert(stretch + join_lines(files) == before + (ending + tail));
        lemma_without_passes(before, ending + tail, ending);
        lemma_without_takes(tail, ending);
        assert forall|i: int| 0 <= i < others.len() implies is_entry_file(
            #[trigger] others[i],
        ) && holds_no(entry_name(others[i]), '.') by {
            assert(others[i] == files[i + 1]);
        }
        lemma_names_remain(feed, others);
        assert(before + (feed + join_lines(other_names)) == stretch + join_lines(names));
    }
}

/// Lines without a dot, joined, hold no dot.
proof fn lemma_joined_holds_no_dot(lines: Seq<Seq<char>>)
    requires
        forall|i: int| 0 <= i < lines.len() ==> holds_no(#[trigger] lines[i], '.'),
    ensures
        holds_no(join_lines(lines), '.'),
    decreases lines.len(),
{
    if lines.len() > 1 {
        let fewer = lines.drop_last();
        assert forall|i: int| 0 <= i < fewer.len() implies holds_no(#[trigger] fewer[i], '.') by {
            assert(fewer[i] == lines[i]);
        }
        lemma_joined_holds_no_dot(fewer);
        assert(holds_no(lines.last(), '.'));
    } else if lines.len() == 1 {
        assert(holds_no(lines[0], '.'));
    }
}

/// Where no entry of the store has a dot in its name, the menu is the names
/// of its entries, one to a line, in the order of the listing.
pub proof fn theorem_menu_of_plain_names(listing: Seq<char>)
    requires
        forall|i: int|
            0 <= i < names_in(listing).len() ==> holds_no(#[trigger] names_in(listing)[i], '.'),
    ensures
        menu_of(listing) == join_lines(names_in(listing)),
{
    reveal_strlit("./");
    let files = lines_of(listing).filter(entry_files());
    let names = names_in(listing);
    let nothing = Seq::<char>::empty();
    if files.len() == 0 {
        assert(join_lines(files) == nothing);
        assert(join_lines(names) == nothing);
    } else {
        assert forall|i: int| 0 <= i < files.len() implies is_entry_file(#[trigger] files[i])
            && holds_no(entry_name(files[i]), '.') by {
            lines_of(listing).lemma_filter_pred(entry_files(), i);
            assert(names[i] == entry_name(files[i]));
        }
        lemma_names_remain(nothing, files);
        assert(nothing + join_lines(files) == join_lines(files));
        assert(nothing + join_lines(names) == join_lines(names));
    }
    lemma_joined_holds_no_dot(names);
    lemma_without_passes(join_lines(names), nothing, "./"@);
    assert(join_lines(names) + nothing == join_lines(names));
}

/// Whether the piece of `chars` from `from` up to `to` ends in `suffix`.
pub fn span_ends_with(chars: &Vec<char>, from: usize, to: usize, suffix: &Vec<char>) -> (found:
    bool)
    requires
        from <= to <= chars.len(),
    ensures
        found == suffix@.is_suffix_of(chars@.subrange(from as int, to as int)),
{
    let m: usize = suffix.len();
    if to - from < m {
        return false;
    }
    let found = starts_at(chars, to - m, suffix);
    proof {
        let piece = chars@.subrange(from as int, to as int);
        assert(piece.subrange(piece.len() - m, piece.len() as int) == chars@.subrange(
            to - m,
            to as int,
        ));
    }
    found
}

/// Keeps the spans whose pieces name entry files.
pub fn entry_spans(chars: &Vec<char>, spans: &Vec<(usize, usize)>) -> (kept: Vec<(usize, usize)>)
    requires
        spans_within(spans@, chars@.len()),
    ensures
        spans_within(kept@, chars@.len()),
        cut(chars@, kept@) == cut(chars@, spans@).filter(entry_files()),
{
    let suffix = chars_of(".gpg");
    let ghost pieces = cut(chars@, spans@);
    let mut kept: Vec<(usize, usize)> = Vec::new();
    let mut k: usize = 0;
    assert(pieces.take(0).filter(entry_files()) == Seq::<Seq<char>>::empty()) by {
        reveal(Seq::filter);
    }
    while k < spans.len()
        invariant
            k <= spans.len(),
            spans_within(spans@, chars@.len()),
            spans_within(kept@, chars@.len()),
            suffix@ == ".gpg"@,
            pieces == cut(chars@, spans@),
            cut(chars@, kept@) == pieces.take(k as int).filter(entry_files()),
        decreases spans.len() - k,
    {
        let (from, to) = spans[k];
        let ghost before = cut(chars@, kept@);
        proof {
            assert(pieces.take(k + 1) == pieces.take(k as int).push(pieces[k as int]));
            pieces.take(k as int).lemma_filter_push(pieces[k as int], entry_files());
        }
        if span_ends_with(chars, from, to, &suffix) {
            kept.push((from, to));
            assert(cut(chars@, kept@) == before.push(pieces[k as int]));
        }
        k = k + 1;
    }
    assert(pieces.take(k as int) == pieces);
    kept
}

/// Makes the menu of entry names from a listing of the store.
pub fn menu_entries(listing: &str) -> (out: String)
    ensures
        out@ == menu_of(listing@),
{
    let chars = chars_of(listing);
    let spans = line_spans(&chars);
    let kept = entry_spans(&chars, &spans);
    let ghost names = cut(chars@, kept@);
    assert(names.subrange(0, kept.len() as int) == names);
    let joined = join_spans(&chars, &kept, 0, kept.len());
    let suffix = chars_of(".gpg");
    let bare = remove_all(&joined, &suffix);
    let here = chars_of("./");
    let plain = remove_all(&bare, &here);
    string_of(&plain)
}

/// The command that lists the files of the store, one path to a line.
pub fn list_command() -> (out: String)
    ensures
        out@ == "find ~/.password-store/ -printf \"%P\\n\""@,
{
    "find ~/.password-store/ -printf \"%P\\n\"".to_string()
}

/// The command that offers `entries` in a menu and prints the one chosen.
pub fn menu_command(entries: &str) -> (out: String)
    ensures
        out@ == "echo \""@ + entries@ + "\" | dmenu"@,
{
    let mut out = "echo \"".to_string();
    out.append(entries);
    out.append("\" | dmenu");
    out
}

/// The command that prints the entry `name` of the store.
pub fn fetch_command(name: &str) -> (out: String)
    ensures
        out@ == "pass \""@ + name@ + "\""@,
{
    let mut out = "pass \"".to_string();
    out.append(name);
    out.append("\"");
    out
}

/// The name that the menu printed, without the white space that ends it.
pub fn chosen_entry(printed: &str) -> (out: String)
    ensures
        out@ == trimmed_end(printed@),
{
    let chars = chars_of(printed);
    let len: usize = trimmed_len(&chars);
    string_of_span(&chars, 0, len)
}

} // verus!
