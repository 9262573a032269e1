//! Writing repository definitions in the text form that the catalog reads,
//! and the proof that what is written reads back as what it was.

use vstd::prelude::*;
use vstd::string::StringExecFns;
use crate::backend::fedora::repos::{
    built, classify, flushed, metadata_views, parsed, repositories_of, sections_from,
    source_of, switch, value_of, LineKind, SectionView,
};
use crate::backend::fedora::types::{RepositoryMetadata, RepositoryMetadataView};
use crate::text::{
    digits_value, first_index, join, joined, leading_spaces, leading_word, lemma_first_index,
    lemma_leading_word, parse_i32_spec, split_on, split_once, trailing_spaces,
    trimmed, whitespace, words,
};

verus! {

// ---------------------------------------------------------------------------
// The written form
// ---------------------------------------------------------------------------

/// The line that opens the entry of the repository called `name`.
pub open spec fn header_line(name: Seq<char>) -> Seq<char> {
    seq!['['] + name + seq![']']
}

/// The line that gives `key` the value `value`.
pub open spec fn entry_line(key: Seq<char>, value: Seq<char>) -> Seq<char> {
    key + seq!['='] + value
}

/// How a switch is written.
pub open spec fn switch_text(on: bool) -> Seq<char> {
    if on {
        seq!['1']
    } else {
        seq!['0']
    }
}

/// The lines that declare one repository: its header, its address, its
/// signature check and its keys.
pub open spec fn repository_lines(r: RepositoryMetadataView) -> Seq<Seq<char>> {
    seq![
        header_line(r.name),
        entry_line("baseurl"@, r.baseurl),
        entry_line("gpgcheck"@, switch_text(r.gpgcheck)),
        entry_line("gpgkey"@, joined(r.gpgkey, seq![' '])),
    ]
}

/// The lines that declare the repositories `repos`, one after another.
pub open spec fn all_lines(repos: Seq<RepositoryMetadataView>) -> Seq<Seq<char>>
    decreases repos.len(),
{
    if repos.len() == 0 {
        Seq::empty()
    } else {
        repository_lines(repos[0]) + all_lines(repos.skip(1))
    }
}

/// The text made of `lines`, each ended by a line feed.
pub open spec fn text_of(lines: Seq<Seq<char>>) -> Seq<char>
    decreases lines.len(),
{
    if lines.len() == 0 {
        Seq::empty()
    } else {
        lines[0] + seq!['\n'] + text_of(lines.skip(1))
    }
}

/// The repository-definition file that declares the repositories `repos`.
pub open spec fn formatted(repos: Seq<RepositoryMetadataView>) -> Seq<char> {
    text_of(all_lines(repos))
}

/// Whether `s` holds no line feed.
pub open spec fn one_line(s: Seq<char>) -> bool {
    forall|i: int| 0 <= i < s.len() ==> s[i] != '\n'
}

/// Whether `s` is empty or neither starts nor ends with whitespace.
pub open spec fn clean_ends(s: Seq<char>) -> bool {
    s.len() == 0 || (!whitespace(s[0]) && !whitespace(s.last()))
}

/// Whether `s` is a word: not empty and free of whitespace.
pub open spec fn is_word(s: Seq<char>) -> bool {
    s.len() > 0 && forall|i: int| 0 <= i < s.len() ==> !whitespace(#[trigger] s[i])
}

/// Whether a repository can be written and read back: it is enabled and was
/// never refreshed; its name is one line; its address is one line, not empty
/// and without whitespace at its ends; its keys are words.
pub open spec fn writable(r: RepositoryMetadataView) -> bool {
    &&& r.enabled
    &&& r.last_refresh is None
    &&& one_line(r.name)
    &&& one_line(r.baseurl)
    &&& r.baseurl.len() > 0
    &&& clean_ends(r.baseurl)
    &&& forall|k: int| 0 <= k < r.gpgkey.len() ==> is_word(#[trigger] r.gpgkey[k])
}

// ---------------------------------------------------------------------------
// Words
// ---------------------------------------------------------------------------

/// A text with clean ends is its own trimmed form.
pub proof fn lemma_trimmed_clean(s: Seq<char>)
    requires
        clean_ends(s),
    ensures
        trimmed(s) == s,
{
    if s.len() > 0 {
        assert(leading_spaces(s) == 0);
        assert(s.skip(0) == s);
        assert(trailing_spaces(s) == 0);
        assert(s.take(s.len() as int) == s);
    } else {
        assert(leading_spaces(s) == 0);
        assert(s.skip(0) == s);
        assert(trailing_spaces(s) == 0);
        assert(s.take(0) == s);
    }
}

/// Joining from the front: the first text, the separator, and the rest joined.
pub proof fn lemma_joined_front(parts: Seq<Seq<char>>, sep: Seq<char>)
    requires
        parts.len() >= 2,
    ensures
        joined(parts, sep) == parts[0] + sep + joined(parts.skip(1), sep),
    decreases parts.len(),
{
    let init = parts.drop_last();
    if parts.len() == 2 {
        assert(init.len() == 1);
        assert(joined(init, sep) == init[0]);
        assert(parts.skip(1).len() == 1);
        assert(joined(parts.skip(1), sep) == parts.skip(1)[0]);
    } else {
        lemma_joined_front(init, sep);
        assert(init.skip(1) == parts.skip(1).drop_last());
        assert(parts.skip(1).last() == parts.last());
        assert(joined(parts.skip(1), sep) == joined(parts.skip(1).drop_last(), sep) + sep
            + parts.last());
        assert(parts[0] + sep + joined(init.skip(1), sep) + sep + parts.last() == parts[0] + sep
            + (joined(init.skip(1), sep) + sep + parts.last()));
    }
}

/// Words joined by blanks make a text that starts and ends with a character
/// that is no whitespace, and that holds no line feed.
pub proof fn lemma_joined_words(keys: Seq<Seq<char>>)
    requires
        forall|k: int| 0 <= k < keys.len() ==> is_word(#[trigger] keys[k]),
    ensures
        clean_ends(joined(keys, seq![' '])),
        one_line(joined(keys, seq![' '])),
        keys.len() > 0 ==> joined(keys, seq![' ']).len() > 0,
    decreases keys.len(),
{
    let sep = seq![' '];
    let text = joined(keys, sep);
    if keys.len() >= 2 {
        let init = keys.drop_last();
        assert forall|k: int| 0 <= k < init.len() implies is_word(#[trigger] init[k]) by {
            assert(init[k] == keys[k]);
        }
        lemma_joined_words(init);
        let head = joined(init, sep);
        let last = keys.last();
        assert(is_word(last));
        assert(text == head + sep + last);
        assert(text[0] == head[0]);
        assert(text.last() == last.last());
        assert forall|i: int| 0 <= i < text.len() implies text[i] != '\n' by {
            if i < head.len() {
                assert(text[i] == head[i]);
            } else if i == head.len() {
                assert(text[i] == ' ');
            } else {
                assert(text[i] == last[i - head.len() - 1]);
                assert(!whitespace(last[i - head.len() - 1]));
                lemma_mark_characters();
            }
        }
    } else if keys.len() == 1 {
        let only = keys[0];
        assert(text == only);
        assert forall|i: int| 0 <= i < text.len() implies text[i] != '\n' by {
            assert(!whitespace(only[i]));
            lemma_mark_characters();
        }
    }
}

/// The blank is whitespace; its neighbours in the written form are not.
pub proof fn lemma_mark_characters()
    ensures
        whitespace(' '),
        !whitespace('['),
        !whitespace(']'),
        !whitespace('='),
        !whitespace('0'),
        !whitespace('1'),
        !whitespace('b'),
        !whitespace('g'),
        !whitespace('l'),
        !whitespace('k'),
        !whitespace('y'),
        forall|c: char| whitespace(c) <== c == '\n',
{
    reveal(whitespace);
}

/// The only word of a text that is a word is the text.
proof fn lemma_words_single(w: Seq<char>)
    requires
        is_word(w),
    ensures
        words(w) == seq![w],
{
    assert(!whitespace(w[0]));
    assert(leading_spaces(w) == 0);
    assert(w.skip(0) == w);
    lemma_leading_word(w, w.len() as int);
    assert(w.take(w.len() as int) == w);
    let e = w.skip(w.len() as int);
    assert(e.len() == 0);
    assert(leading_spaces(e) == 0);
    assert(e.skip(0) == e);
    assert(leading_word(e) == 0);
    assert(words(e) == Seq::<Seq<char>>::empty());
    assert(words(w) == seq![w] + words(e));
    assert(seq![w] + Seq::<Seq<char>>::empty() =~= seq![w]);
}

/// A blank before a text that starts with no whitespace is passed over.
proof fn lemma_words_after_blank(tail: Seq<char>)
    requires
        tail.len() > 0,
        !whitespace(tail[0]),
    ensures
        words(seq![' '] + tail) == words(tail),
{
    lemma_mark_characters();
    let after = seq![' '] + tail;
    assert(after[0] == ' ');
    assert(after.skip(1) == tail);
    assert(leading_spaces(tail) == 0);
    assert(leading_spaces(after) == 1);
    assert(tail.skip(0) == tail);
}

/// The words of a word, a blank and more text are the word and the words of
/// that text.
proof fn lemma_words_step(w: Seq<char>, tail: Seq<char>)
    requires
        is_word(w),
        tail.len() > 0,
        !whitespace(tail[0]),
    ensures
        words(w + seq![' '] + tail) == seq![w] + words(tail),
{
    lemma_mark_characters();
    let text = w + seq![' '] + tail;
    assert(text[0] == w[0]);
    assert(!whitespace(w[0]));
    assert(leading_spaces(text) == 0);
    assert(text.skip(0) == text);
    assert forall|j: int| 0 <= j < w.len() implies !whitespace(text[j]) by {
        assert(text[j] == w[j]);
    }
    assert(text[w.len() as int] == ' ');
    lemma_leading_word(text, w.len() as int);
    assert(text.take(w.len() as int) == w);
    assert(text.skip(w.len() as int) == seq![' '] + tail);
    lemma_words_after_blank(tail);
    assert(words(text) == seq![text.take(w.len() as int)] + words(text.skip(w.len() as int)));
}

/// The words of words joined by blanks are those words.
pub proof fn lemma_words_of_joined(keys: Seq<Seq<char>>)
    requires
        forall|k: int| 0 <= k < keys.len() ==> is_word(#[trigger] keys[k]),
    ensures
        words(joined(keys, seq![' '])) == keys,
    decreases keys.len(),
{
    let sep = seq![' '];
    let text = joined(keys, sep);
    if keys.len() == 0 {
        assert(leading_spaces(text) == 0);
        assert(text.skip(0) == text);
        assert(leading_word(text) == 0);
        assert(words(text) == Seq::<Seq<char>>::empty());
        assert(keys =~= Seq::<Seq<char>>::empty());
    } else if keys.len() == 1 {
        assert(is_word(keys[0]));
        lemma_words_single(keys[0]);
        assert(keys =~= seq![keys[0]]);
    } else {
        let w = keys[0];
        assert(is_word(w));
        let rest = keys.skip(1);
        assert forall|k: int| 0 <= k < rest.len() implies is_word(#[trigger] rest[k]) by {
            assert(rest[k] == keys[k + 1]);
        }
        let tail_text = joined(rest, sep);
        lemma_words_of_joined(rest);
        lemma_joined_words(rest);
        lemma_joined_front(keys, sep);
        lemma_words_step(w, tail_text);
        assert(keys =~= seq![w] + rest);
    }
}

// ---------------------------------------------------------------------------
// Lines
// ---------------------------------------------------------------------------

/// A text that starts with a line cut by a line feed splits into that line
/// and the pieces of what follows.
proof fn lemma_split_line(line: Seq<char>, rest: Seq<char>)
    requires
        one_line(line),
    ensures
        split_on(line + seq!['\n'] + rest, '\n') == seq![line] + split_on(rest, '\n'),
{
    let text = line + seq!['\n'] + rest;
    assert forall|j: int| 0 <= j < line.len() implies text[j] != '\n' by {
        assert(text[j] == line[j]);
    }
    assert(text[line.len() as int] == '\n');
    lemma_first_index(text, '\n', line.len() as int);
    assert(text.take(line.len() as int) == line);
    assert(text.skip(line.len() + 1 as int) == rest);
}

/// The text made of lines splits into those lines and an empty last piece.
proof fn lemma_split_text(lines: Seq<Seq<char>>)
    requires
        forall|i: int| 0 <= i < lines.len() ==> one_line(#[trigger] lines[i]),
    ensures
        split_on(text_of(lines), '\n') == lines + seq![Seq::<char>::empty()],
    decreases lines.len(),
{
    if lines.len() == 0 {
        let e = Seq::<char>::empty();
        assert(text_of(lines) == e);
        assert(first_index(e, '\n') == 0);
        assert(split_on(e, '\n') == seq![e]);
        assert(lines + seq![e] =~= seq![e]);
    } else {
        let rest = lines.skip(1);
        assert forall|i: int| 0 <= i < rest.len() implies one_line(#[trigger] rest[i]) by {
            assert(rest[i] == lines[i + 1]);
        }
        lemma_split_text(rest);
        assert(one_line(lines[0]));
        lemma_split_line(lines[0], text_of(rest));
        assert(seq![lines[0]] + (rest + seq![Seq::<char>::empty()]) =~= lines + seq![
            Seq::<char>::empty(),
        ]);
    }
}

/// The text of lines put one after another is the text of the first lines
/// followed by the text of the others.
proof fn lemma_text_of_concat(a: Seq<Seq<char>>, b: Seq<Seq<char>>)
    ensures
        text_of(a + b) == text_of(a) + text_of(b),
    decreases a.len(),
{
    if a.len() == 0 {
        assert(a + b =~= b);
        assert(text_of(a) + text_of(b) =~= text_of(b));
    } else {
        lemma_text_of_concat(a.skip(1), b);
        assert((a + b)[0] == a[0]);
        assert((a + b).skip(1) =~= a.skip(1) + b);
        assert(a[0] + seq!['\n'] + (text_of(a.skip(1)) + text_of(b)) =~= (a[0] + seq!['\n']
            + text_of(a.skip(1))) + text_of(b));
    }
}

/// A header line reads as the header of its name.
proof fn lemma_classify_header(name: Seq<char>)
    ensures
        classify(header_line(name)) == LineKind::Header(name),
{
    lemma_mark_characters();
    let line = header_line(name);
    assert(line[0] == '[');
    assert(line.last() == ']');
    lemma_trimmed_clean(line);
    assert(line.subrange(1, line.len() - 1) == name);
}

/// An entry line reads as its key and its value.
proof fn lemma_classify_entry(key: Seq<char>, value: Seq<char>)
    requires
        key.len() > 0,
        clean_ends(key),
        key[0] != '#',
        key[0] != '[',
        forall|i: int| 0 <= i < key.len() ==> key[i] != '=',
        clean_ends(value),
    ensures
        classify(entry_line(key, value)) == LineKind::Entry(key, value),
{
    lemma_mark_characters();
    let line = entry_line(key, value);
    assert(line[0] == key[0]);
    if value.len() == 0 {
        assert(line.last() == '=');
    } else {
        assert(line.last() == value.last());
    }
    lemma_trimmed_clean(line);
    assert forall|j: int| 0 <= j < key.len() implies line[j] != '=' by {
        assert(line[j] == key[j]);
    }
    assert(line[key.len() as int] == '=');
    lemma_first_index(line, '=', key.len() as int);
    assert(line.take(key.len() as int) == key);
    assert(line.skip(key.len() + 1 as int) == value);
    assert(split_once(line, '=') == Some((key, value)));
    lemma_trimmed_clean(key);
    lemma_trimmed_clean(value);
}

/// The empty line is blank.
proof fn lemma_classify_blank()
    ensures
        classify(Seq::<char>::empty()) == LineKind::Blank,
{
    lemma_trimmed_clean(Seq::<char>::empty());
}

/// The characters of the keys of the written form.
proof fn lemma_key_texts()
    ensures
        "baseurl"@ == seq!['b', 'a', 's', 'e', 'u', 'r', 'l'],
        "gpgcheck"@ == seq!['g', 'p', 'g', 'c', 'h', 'e', 'c', 'k'],
        "gpgkey"@ == seq!['g', 'p', 'g', 'k', 'e', 'y'],
        "enabled"@ == seq!['e', 'n', 'a', 'b', 'l', 'e', 'd'],
        "metalink"@.len() == 8,
        "mirrorlist"@.len() == 10,
{
    reveal_strlit("baseurl");
    reveal_strlit("gpgcheck");
    reveal_strlit("gpgkey");
    reveal_strlit("enabled");
    reveal_strlit("metalink");
    reveal_strlit("mirrorlist");
    assert("baseurl"@ =~= seq!['b', 'a', 's', 'e', 'u', 'r', 'l']);
    assert("gpgcheck"@ =~= seq!['g', 'p', 'g', 'c', 'h', 'e', 'c', 'k']);
    assert("gpgkey"@ =~= seq!['g', 'p', 'g', 'k', 'e', 'y']);
    assert("enabled"@ =~= seq!['e', 'n', 'a', 'b', 'l', 'e', 'd']);
}

/// The three entry lines of a writable repository read as their pairs.
proof fn lemma_classify_repository(r: RepositoryMetadataView)
    requires
        writable(r),
    ensures
        classify(entry_line("baseurl"@, r.baseurl)) == LineKind::Entry("baseurl"@, r.baseurl),
        classify(entry_line("gpgcheck"@, switch_text(r.gpgcheck))) == LineKind::Entry(
            "gpgcheck"@,
            switch_text(r.gpgcheck),
        ),
        classify(entry_line("gpgkey"@, joined(r.gpgkey, seq![' ']))) == LineKind::Entry(
            "gpgkey"@,
            joined(r.gpgkey, seq![' ']),
        ),
{
    lemma_key_texts();
    lemma_mark_characters();
    lemma_joined_words(r.gpgkey);
    lemma_classify_entry("baseurl"@, r.baseurl);
    lemma_classify_entry("gpgcheck"@, switch_text(r.gpgcheck));
    lemma_classify_entry("gpgkey"@, joined(r.gpgkey, seq![' ']));
}

// ---------------------------------------------------------------------------
// Sections
// ---------------------------------------------------------------------------

/// The section that the lines of a repository make.
pub open spec fn section_of(r: RepositoryMetadataView) -> SectionView {
    SectionView {
        name: r.name,
        entries: seq![
            ("baseurl"@, r.baseurl),
            ("gpgcheck"@, switch_text(r.gpgcheck)),
            ("gpgkey"@, joined(r.gpgkey, seq![' '])),
        ],
    }
}

/// The sections that the lines of `repos` make.
pub open spec fn sections_for(repos: Seq<RepositoryMetadataView>) -> Seq<SectionView> {
    Seq::new(repos.len(), |i: int| section_of(repos[i]))
}

/// The lines of one repository close the section that is open and leave the
/// section of the repository open.
proof fn lemma_block(r: RepositoryMetadataView, rest: Seq<Seq<char>>, current: Option<SectionView>)
    requires
        writable(r),
    ensures
        sections_from(repository_lines(r) + rest, current) == flushed(current) + sections_from(
            rest,
            Some(section_of(r)),
        ),
{
    lemma_classify_header(r.name);
    lemma_classify_repository(r);
    let block = repository_lines(r);
    let l0 = block + rest;
    let l1 = l0.skip(1);
    let l2 = l1.skip(1);
    let l3 = l2.skip(1);
    assert(l0[0] == block[0]);
    assert(l1[0] == block[1]);
    assert(l2[0] == block[2]);
    assert(l3[0] == block[3]);
    assert(l3.skip(1) =~= rest);
    let s0 = SectionView { name: r.name, entries: Seq::empty() };
    let s1 = SectionView { entries: s0.entries.push(("baseurl"@, r.baseurl)), ..s0 };
    let s2 = SectionView {
        entries: s1.entries.push(("gpgcheck"@, switch_text(r.gpgcheck))),
        ..s1
    };
    let s3 = SectionView {
        entries: s2.entries.push(("gpgkey"@, joined(r.gpgkey, seq![' ']))),
        ..s2
    };
    assert(s3.entries =~= section_of(r).entries);
    assert(sections_from(l3, Some(s2)) == sections_from(rest, Some(s3)));
    assert(sections_from(l2, Some(s1)) == sections_from(l3, Some(s2)));
    assert(sections_from(l1, Some(s0)) == sections_from(l2, Some(s1)));
    assert(sections_from(l0, current) == flushed(current) + sections_from(l1, Some(s0)));
}

/// The lines of writable repositories, with the empty piece that ends the
/// text, make the sections of those repositories after the section that is
/// open.
proof fn lemma_sections(repos: Seq<RepositoryMetadataView>, current: Option<SectionView>)
    requires
        forall|i: int| 0 <= i < repos.len() ==> writable(#[trigger] repos[i]),
    ensures
        sections_from(all_lines(repos) + seq![Seq::<char>::empty()], current) == flushed(current)
            + sections_for(repos),
    decreases repos.len(),
{
    let end = seq![Seq::<char>::empty()];
    if repos.len() == 0 {
        lemma_classify_blank();
        let lines = all_lines(repos) + end;
        assert(lines =~= end);
        assert(lines[0] == Seq::<char>::empty());
        assert(lines.skip(1).len() == 0);
        assert(sections_from(lines.skip(1), current) == flushed(current));
        assert(sections_from(lines, current) == flushed(current));
        assert(flushed(current) + sections_for(repos) =~= flushed(current));
    } else {
        let r = repos[0];
        let others = repos.skip(1);
        assert(writable(r));
        assert forall|i: int| 0 <= i < others.len() implies writable(#[trigger] others[i]) by {
            assert(others[i] == repos[i + 1]);
        }
        lemma_sections(others, Some(section_of(r)));
        lemma_block(r, all_lines(others) + end, current);
        assert(all_lines(repos) + end =~= repository_lines(r) + (all_lines(others) + end));
        assert(flushed(current) + (flushed(Some(section_of(r))) + sections_for(others)) =~= flushed(
            current,
        ) + sections_for(repos));
    }
}

/// The section of a writable repository builds that repository, whatever
/// the default of the signature check.
proof fn lemma_built(r: RepositoryMetadataView, gpgcheck: bool)
    requires
        writable(r),
    ensures
        built(section_of(r), gpgcheck) == Ok::<Option<RepositoryMetadataView>, Seq<char>>(Some(r)),
{
    lemma_key_texts();
    let keys_text = joined(r.gpgkey, seq![' ']);
    let e3 = section_of(r).entries;
    let e2 = e3.drop_last();
    let e1 = e2.drop_last();
    let e0 = e1.drop_last();
    assert(e3.last() == ("gpgkey"@, keys_text));
    assert(e2.last() == ("gpgcheck"@, switch_text(r.gpgcheck)));
    assert(e1.last() == ("baseurl"@, r.baseurl));
    assert(e0.len() == 0);
    // the four keys differ
    assert("gpgkey"@ != "enabled"@ && "gpgcheck"@ != "enabled"@);
    assert("baseurl"@[0] != "enabled"@[0]);
    assert("gpgkey"@ != "baseurl"@ && "gpgcheck"@ != "baseurl"@);
    assert("gpgkey"@ != "gpgcheck"@);
    // no switch for `enabled`: the default holds
    assert(value_of(e0, "enabled"@) is None);
    assert(value_of(e1, "enabled"@) is None);
    assert(value_of(e2, "enabled"@) is None);
    assert(value_of(e3, "enabled"@) is None);
    // the address
    assert(value_of(e1, "baseurl"@) == Some(r.baseurl));
    assert(value_of(e2, "baseurl"@) == Some(r.baseurl));
    assert(value_of(e3, "baseurl"@) == Some(r.baseurl));
    assert(source_of(e3) == Some(r.baseurl));
    // the signature check
    assert(value_of(e2, "gpgcheck"@) == Some(switch_text(r.gpgcheck)));
    assert(value_of(e3, "gpgcheck"@) == Some(switch_text(r.gpgcheck)));
    lemma_switch_text(r.gpgcheck, gpgcheck);
    // the keys
    assert(value_of(e3, "gpgkey"@) == Some(keys_text));
    lemma_words_of_joined(r.gpgkey);
}

/// A written switch reads as it was, whatever the default.
proof fn lemma_switch_text(on: bool, default: bool)
    ensures
        switch(Some(switch_text(on)), default) == on,
{
    let s = switch_text(on);
    assert(s.len() == 1);
    assert(s.drop_last().len() == 0);
    assert(digits_value(s.drop_last()) == 0);
    assert(digits_value(s) == (if on {
        1nat
    } else {
        0nat
    }));
    assert(parse_i32_spec(s) == Some(if on {
        1i32
    } else {
        0i32
    }));
}

/// The sections of writable repositories build those repositories.
proof fn lemma_repositories(repos: Seq<RepositoryMetadataView>, gpgcheck: bool)
    requires
        forall|i: int| 0 <= i < repos.len() ==> writable(#[trigger] repos[i]),
    ensures
        repositories_of(sections_for(repos), gpgcheck) == Ok::<
            Seq<RepositoryMetadataView>,
            Seq<char>,
        >(repos),
    decreases repos.len(),
{
    let sections = sections_for(repos);
    if repos.len() == 0 {
        assert(repos =~= Seq::empty());
    } else {
        let others = repos.skip(1);
        assert(writable(repos[0]));
        assert forall|i: int| 0 <= i < others.len() implies writable(#[trigger] others[i]) by {
            assert(others[i] == repos[i + 1]);
        }
        lemma_repositories(others, gpgcheck);
        lemma_built(repos[0], gpgcheck);
        assert(sections[0] == section_of(repos[0]));
        assert(sections.skip(1) =~= sections_for(others));
        assert(seq![repos[0]] + others =~= repos);
    }
}

/// Every line of a writable repository is one line.
proof fn lemma_lines_are_lines(repos: Seq<RepositoryMetadataView>)
    requires
        forall|i: int| 0 <= i < repos.len() ==> writable(#[trigger] repos[i]),
    ensures
        forall|i: int| 0 <= i < all_lines(repos).len() ==> one_line(#[trigger] all_lines(repos)[i]),
    decreases repos.len(),
{
    if repos.len() > 0 {
        let r = repos[0];
        let others = repos.skip(1);
        assert(writable(r));
        assert forall|i: int| 0 <= i < others.len() implies writable(#[trigger] others[i]) by {
            assert(others[i] == repos[i + 1]);
        }
        lemma_lines_are_lines(others);
        lemma_key_texts();
        lemma_joined_words(r.gpgkey);
        let block = repository_lines(r);
        assert(one_line(block[0]));
        assert(one_line(block[1]));
        assert(one_line(block[2]));
        assert(one_line(block[3]));
        let lines = all_lines(repos);
        assert forall|i: int| 0 <= i < lines.len() implies one_line(#[trigger] lines[i]) by {
            if i < 4 {
                assert(lines[i] == block[i]);
            } else {
                assert(lines[i] == all_lines(others)[i - 4]);
            }
        }
    }
}

/// Repositories that are written in the text form of a repository-definition
/// file read back as they were: the file parses, and it yields those
/// repositories in their order.
pub proof fn written_repositories_read_back(repos: Seq<RepositoryMetadataView>, gpgcheck: bool)
    requires
        forall|i: int| 0 <= i < repos.len() ==> writable(#[trigger] repos[i]),
    ensures
        parsed(formatted(repos), gpgcheck) == Ok::<Seq<RepositoryMetadataView>, Seq<char>>(repos),
{
    lemma_lines_are_lines(repos);
    lemma_split_text(all_lines(repos));
    lemma_sections(repos, None);
    assert(flushed(None) + sections_for(repos) =~= sections_for(repos));
    lemma_repositories(repos, gpgcheck);
}

// ---------------------------------------------------------------------------
// Writing
// ---------------------------------------------------------------------------

/// Appends the lines that declare `repo` to `out`.
pub fn format_repository(out: &mut String, repo: &RepositoryMetadata)
    ensures
        final(out)@ == old(out)@ + text_of(repository_lines(repo@)),
{
    out.push('[');
    out.append(repo.name.as_str());
    out.push(']');
    out.push('\n');
    out.append("baseurl");
    out.push('=');
    out.append(repo.baseurl.as_str());
    out.push('\n');
    out.append("gpgcheck");
    out.push('=');
    out.push(
        if repo.gpgcheck {
            '1'
        } else {
            '0'
        },
    );
    out.push('\n');
    out.append("gpgkey");
    out.push('=');
    let keys = join(&repo.gpgkey, " ");
    out.append(keys.as_str());
    out.push('\n');
    proof {
        reveal_strlit(" ");
        assert(" "@ =~= seq![' ']);
        let lines = repository_lines(repo@);
        let l1 = lines.skip(1);
        let l2 = l1.skip(1);
        let l3 = l2.skip(1);
        assert(l3.skip(1).len() == 0);
        assert(text_of(l3.skip(1)) == Seq::<char>::empty());
        assert(text_of(l3) == lines[3] + seq!['\n'] + text_of(l3.skip(1)));
        assert(text_of(l2) == lines[2] + seq!['\n'] + text_of(l3));
        assert(text_of(l1) == lines[1] + seq!['\n'] + text_of(l2));
        assert(text_of(lines) == lines[0] + seq!['\n'] + text_of(l1));
        assert(out@ =~= old(out)@ + text_of(lines));
    }
}

/// The repository-definition file that declares `repos`.
pub fn format_repositories(repos: &Vec<RepositoryMetadata>) -> (r: String)
    ensures
        r@ == formatted(metadata_views(repos@)),
{
    let ghost all = metadata_views(repos@);
    let mut out = String::new();
    let mut i: usize = 0;
    proof {
        assert(all.skip(0) == all);
        assert(out@ + formatted(all) =~= formatted(all));
    }
    while i < repos.len()
        invariant
            i <= repos.len(),
            all == metadata_views(repos@),
            out@ + formatted(all.skip(i as int)) == formatted(all),
        decreases repos.len() - i,
    {
        let ghost before = out@;
        format_repository(&mut out, &repos[i]);
        proof {
            let rest = all.skip(i as int);
            assert(rest[0] == repos@[i as int]@);
            assert(rest.skip(1) == all.skip(i + 1));
            lemma_text_of_concat(repository_lines(rest[0]), all_lines(rest.skip(1)));
            assert(before + (text_of(repository_lines(rest[0])) + formatted(all.skip(i + 1)))
                =~= (before + text_of(repository_lines(rest[0]))) + formatted(all.skip(i + 1)));
        }
        i += 1;
    }
    proof {
        assert(all.skip(repos.len() as int).len() == 0);
        assert(out@ + Seq::<char>::empty() =~= out@);
    }
    out
}

} // verus!
