//! The two layouts of a listing: long (one line per entry) and horizontal
//! (names separated by single spaces).

use vstd::prelude::*;
use vstd::string::*;
use crate::entry::{
    DirEntryInfo, StyleTag, shown, style_of, classify, is_included, is_shown,
    lemma_all_hidden_shows_nothing,
};
use crate::flags::{ListingFormat, UsedFlags, ListError};
use crate::style::{painted, paint, style_code};
use crate::text::{
    pad_left, decimal_of, decimal, right_align, occurrences, lemma_occurrences_concat,
    lemma_occurrences_contains, lemma_decimal_digits,
};

verus! {

/// Width of the read-only field of a long line.
pub const READ_ONLY_WIDTH: usize = 10;

/// Width of the size field of a long line.
pub const SIZE_WIDTH: usize = 10;

/// Width of the name field of a long line.
pub const NAME_WIDTH: usize = 20;

/// The views of a list of strings.
pub open spec fn views(v: Seq<String>) -> Seq<Seq<char>> {
    v.map_values(|s: String| s@)
}

/// The parts separated by single spaces: none before the first, none after
/// the last.
pub open spec fn joined(parts: Seq<Seq<char>>) -> Seq<char>
    decreases parts.len(),
{
    if parts.len() == 0 {
        Seq::empty()
    } else if parts.len() == 1 {
        parts[0]
    } else {
        joined(parts.drop_last()) + seq![' '] + parts.last()
    }
}

/// The text of the read-only field before alignment.
pub open spec fn read_only_text(read_only: bool) -> Seq<char> {
    if read_only {
        seq!['R', 'e', 'a', 'd', '-', 'O', 'n', 'l', 'y']
    } else {
        Seq::empty()
    }
}

/// The long line of an entry whose aligned name, once styled, is `styled`:
/// read-only marker and size right-aligned in ten characters each, the name
/// field, each separated by one space, and a line break.
pub open spec fn long_line_of(e: DirEntryInfo, styled: Seq<char>) -> Seq<char> {
    pad_left(read_only_text(e.read_only), READ_ONLY_WIDTH as nat) + seq![' '] + pad_left(
        decimal_of(e.size as nat),
        SIZE_WIDTH as nat,
    ) + seq![' '] + styled + seq!['\n']
}

/// The long lines of the entries `es`, the i-th name styled as `styled[i]`.
pub open spec fn long_lines_of(es: Seq<DirEntryInfo>, styled: Seq<Seq<char>>) -> Seq<char>
    decreases es.len(),
{
    if es.len() == 0 || styled.len() == 0 {
        Seq::empty()
    } else {
        long_lines_of(es.drop_last(), styled.drop_last()) + long_line_of(es.last(), styled.last())
    }
}

/// `styled[i]` is the name of `es[i]` in its display style, aligned in the
/// name field of a long line when `aligned` holds.
pub open spec fn styled_names(es: Seq<DirEntryInfo>, styled: Seq<Seq<char>>, aligned: bool) -> bool {
    &&& styled.len() == es.len()
    &&& forall|i: int|
        0 <= i < es.len() && !(#[trigger] es[i]).name@.contains('\u{1b}') ==> painted(
            style_of(es[i]),
            if aligned { pad_left(es[i].name@, NAME_WIDTH as nat) } else { es[i].name@ },
            styled[i],
        )
}

proof fn lemma_shown_step(es: Seq<DirEntryInfo>, i: int, show_hidden: bool)
    requires
        0 <= i < es.len(),
    ensures
        shown(es.take(i + 1), show_hidden) == if is_shown(es[i], show_hidden) {
            shown(es.take(i), show_hidden).push(es[i])
        } else {
            shown(es.take(i), show_hidden)
        },
{
    assert(es.take(i + 1).drop_last() =~= es.take(i));
}

/// The parts separated by single spaces.
pub fn horizontal_text(parts: &Vec<String>) -> (r: String)
    ensures
        r@ == joined(views(parts@)),
{
    let ghost vs = views(parts@);
    let mut r = String::new();
    let mut count: usize = 0;
    proof {
        reveal_strlit(" ");
        assert(" "@ =~= seq![' ']);
    }
    while count < parts.len()
        invariant
            vs == views(parts@),
            count <= parts@.len(),
            r@ == joined(vs.take(count as int)),
            " "@ == seq![' '],
        decreases parts@.len() - count,
    {
        assert(vs.take(count + 1).drop_last() =~= vs.take(count as int));
        if count != 0 {
            r.append(" ");
        }
        r.append(parts[count].as_str());
        count = count + 1;
        assert(r@ =~= joined(vs.take(count as int)));
    }
    assert(vs.take(count as int) =~= vs);
    r
}

/// The shown names in their display styles, separated by single spaces.
pub fn horizontal_listing(entries: &Vec<DirEntryInfo>, flags: &UsedFlags) -> (r: String)
    ensures
        exists|styled: Seq<Seq<char>>|
            styled_names(shown(entries@, flags.show_hidden), styled, false) && r@ == joined(
                styled,
            ),
        shown(entries@, flags.show_hidden).len() == 0 ==> r@.len() == 0,
{
    let ghost es = entries@;
    let ghost sh = flags.show_hidden;
    let mut parts: Vec<String> = Vec::new();
    let mut i: usize = 0;
    while i < entries.len()
        invariant
            es == entries@,
            sh == flags.show_hidden,
            i <= es.len(),
            styled_names(shown(es.take(i as int), sh), views(parts@), false),
        decreases es.len() - i,
    {
        proof {
            lemma_shown_step(es, i as int, sh);
        }
        let e = &entries[i];
        if is_included(e, flags.show_hidden) {
            let p = paint(e.name.as_str(), classify(e));
            let ghost prev = parts@;
            parts.push(p);
            assert(views(parts@) =~= views(prev).push(p@));
        }
        i = i + 1;
    }
    assert(es.take(i as int) =~= es);
    let r = horizontal_text(&parts);
    assert(styled_names(shown(es, sh), views(parts@), false));
    r
}

/// One long line: read-only marker, size and the already styled name field.
pub fn long_line(e: &DirEntryInfo, styled: &str) -> (r: String)
    ensures
        r@ == long_line_of(*e, styled@),
{
    proof {
        reveal_strlit("Read-Only");
        reveal_strlit("");
        reveal_strlit(" ");
        reveal_strlit("\n");
    }
    let marker = if e.read_only { "Read-Only" } else { "" };
    assert(marker@ =~= read_only_text(e.read_only));
    let mut r = right_align(marker, READ_ONLY_WIDTH);
    r.append(" ");
    let size = decimal(e.size);
    r.append(right_align(size.as_str(), SIZE_WIDTH).as_str());
    r.append(" ");
    r.append(styled);
    r.append("\n");
    assert(r@ =~= long_line_of(*e, styled@));
    r
}

/// One line for each shown entry, in order.
pub fn long_listing(entries: &Vec<DirEntryInfo>, flags: &UsedFlags) -> (r: String)
    ensures
        exists|styled: Seq<Seq<char>>|
            styled_names(shown(entries@, flags.show_hidden), styled, true) && r@ == long_lines_of(
                shown(entries@, flags.show_hidden),
                styled,
            ),
{
    let ghost es = entries@;
    let ghost sh = flags.show_hidden;
    let ghost mut styled: Seq<Seq<char>> = Seq::empty();
    let mut r = String::new();
    let mut i: usize = 0;
    while i < entries.len()
        invariant
            es == entries@,
            sh == flags.show_hidden,
            i <= es.len(),
            styled_names(shown(es.take(i as int), sh), styled, true),
            r@ == long_lines_of(shown(es.take(i as int), sh), styled),
        decreases es.len() - i,
    {
        proof {
            lemma_shown_step(es, i as int, sh);
        }
        let e = &entries[i];
        if is_included(e, flags.show_hidden) {
            let name = right_align(e.name.as_str(), NAME_WIDTH);
            let p = paint(name.as_str(), classify(e));
            let line = long_line(e, p.as_str());
            r.append(line.as_str());
            proof {
                let prev = styled;
                styled = styled.push(p@);
                let s1 = shown(es.take(i + 1), sh);
                assert(s1.drop_last() =~= shown(es.take(i as int), sh));
                assert(styled.drop_last() =~= prev);
                assert(!e.name@.contains('\u{1b}') ==> !name@.contains('\u{1b}')) by {
                    if !e.name@.contains('\u{1b}') && name@.contains('\u{1b}') {
                        let k = choose|k: int| 0 <= k < name@.len() && name@[k] == '\u{1b}';
                        if e.name@.len() < NAME_WIDTH {
                            let d = NAME_WIDTH - e.name@.len();
                            if k >= d {
                                assert(e.name@[k - d] == name@[k]);
                            }
                        }
                    }
                }
            }
        }
        i = i + 1;
    }
    assert(es.take(i as int) =~= es);
    r
}

/// The listing in the selected layout; the comma and vertical layouts have
/// no renderer and are refused as a whole, before anything is produced.
pub fn render_listing(entries: &Vec<DirEntryInfo>, flags: &UsedFlags) -> (r: Result<String, ListError>)
    ensures
        (flags.list_format == ListingFormat::Commas || flags.list_format == ListingFormat::Vertical)
            <==> r is Err,
        r is Err ==> r->Err_0 == ListError::UnimplementedFormat,
        flags.list_format == ListingFormat::Long ==> r is Ok && exists|styled: Seq<Seq<char>>|
            styled_names(shown(entries@, flags.show_hidden), styled, true) && r->Ok_0@
                == long_lines_of(shown(entries@, flags.show_hidden), styled),
        flags.list_format == ListingFormat::Horizontal ==> r is Ok && exists|styled: Seq<Seq<char>>|
            styled_names(shown(entries@, flags.show_hidden), styled, false) && r->Ok_0@ == joined(
                styled,
            ),
{
    match flags.list_format {
        ListingFormat::Long => Ok(long_listing(entries, flags)),
        ListingFormat::Horizontal => Ok(horizontal_listing(entries, flags)),
        ListingFormat::Commas => Err(ListError::UnimplementedFormat),
        ListingFormat::Vertical => Err(ListError::UnimplementedFormat),
    }
}


proof fn lemma_painted_marks(tag: StyleTag, s: Seq<char>, r: Seq<char>, c: char)
    requires
        painted(tag, s, r),
        c == ' ' || c == '\n',
    ensures
        occurrences(r, c) == occurrences(s, c),
        s.len() > 0 && s[0] != ' ' ==> r.len() > 0 && r[0] != ' ',
        s.len() > 0 && s.last() != ' ' ==> r.len() > 0 && r.last() != ' ',
{
    if r != s {
        let open = seq!['\u{1b}', '['];
        let code = style_code(tag);
        let m = seq!['m'];
        let close = seq!['\u{1b}', '[', '0', 'm'];
        assert(r == open + code + m + s + close);
        assert(!open.contains(c));
        assert(!code.contains(c));
        assert(!m.contains(c));
        assert(!close.contains(c));
        lemma_occurrences_contains(open, c);
        lemma_occurrences_contains(code, c);
        lemma_occurrences_contains(m, c);
        lemma_occurrences_contains(close, c);
        lemma_occurrences_concat(open, code, c);
        lemma_occurrences_concat(open + code, m, c);
        lemma_occurrences_concat(open + code + m, s, c);
        lemma_occurrences_concat(open + code + m + s, close, c);
    }
}

proof fn lemma_joined_spacing(parts: Seq<Seq<char>>)
    requires
        forall|i: int| 0 <= i < parts.len() ==> !(#[trigger] parts[i]).contains(' '),
    ensures
        parts.len() > 0 ==> occurrences(joined(parts), ' ') + 1 == parts.len(),
        parts.len() > 0 && parts[0].len() > 0 ==> joined(parts).len() > 0 && joined(parts)[0]
            == parts[0][0],
        parts.len() > 0 && parts.last().len() > 0 ==> joined(parts).len() > 0 && joined(parts).last()
            == parts.last().last(),
    decreases parts.len(),
{
    if parts.len() == 1 {
        lemma_occurrences_contains(parts[0], ' ');
    } else if parts.len() > 1 {
        let init = parts.drop_last();
        assert forall|i: int| 0 <= i < init.len() implies !(#[trigger] init[i]).contains(' ') by {
            assert(init[i] == parts[i]);
        }
        lemma_joined_spacing(init);
        assert(init[0] == parts[0]);
        let j = joined(init);
        lemma_occurrences_contains(parts.last(), ' ');
        lemma_occurrences_concat(j, seq![' '], ' ');
        lemma_occurrences_concat(j + seq![' '], parts.last(), ' ');
        let one = seq![' '];
        assert(one.drop_last() =~= Seq::<char>::empty());
        assert(occurrences(one.drop_last(), ' ') == 0);
        assert(occurrences(one, ' ') == 1);
    }
}

/// Horizontal layout: when the shown names are non-empty and hold no space
/// (nor an escape character), `n` shown entries give exactly `n - 1`
/// spaces, none first and none last; no shown entry gives no output.
pub proof fn lemma_horizontal_spacing(es: Seq<DirEntryInfo>, show_hidden: bool, styled: Seq<Seq<char>>)
    requires
        styled_names(shown(es, show_hidden), styled, false),
        forall|i: int|
            0 <= i < shown(es, show_hidden).len() ==> {
                let name = (#[trigger] shown(es, show_hidden)[i]).name@;
                name.len() > 0 && !name.contains(' ') && !name.contains('\u{1b}')
            },
    ensures
        shown(es, show_hidden).len() == 0 ==> joined(styled).len() == 0,
        shown(es, show_hidden).len() > 0 ==> {
            let out = joined(styled);
            &&& occurrences(out, ' ') + 1 == shown(es, show_hidden).len()
            &&& out.len() > 0
            &&& out[0] != ' '
            &&& out.last() != ' '
        },
{
    let sh = shown(es, show_hidden);
    assert forall|i: int| 0 <= i < styled.len() implies !(#[trigger] styled[i]).contains(' ') by {
        let name = sh[i].name@;
        lemma_painted_marks(style_of(sh[i]), name, styled[i], ' ');
        lemma_occurrences_contains(name, ' ');
        lemma_occurrences_contains(styled[i], ' ');
    }
    lemma_joined_spacing(styled);
    if sh.len() > 0 {
        lemma_painted_marks(style_of(sh[0]), sh[0].name@, styled[0], ' ');
        let k = sh.len() - 1;
        lemma_painted_marks(style_of(sh[k]), sh[k].name@, styled[k], ' ');
        assert(!sh[0].name@.contains(' ') ==> sh[0].name@[0] != ' ');
        assert(!sh[k].name@.contains(' ') ==> sh[k].name@[sh[k].name@.len() - 1] != ' ');
    }
}

/// With hidden entries left out, a directory whose entries are all hidden
/// gives an empty horizontal listing.
pub proof fn lemma_hidden_only_lists_nothing(es: Seq<DirEntryInfo>, styled: Seq<Seq<char>>)
    requires
        forall|i: int| 0 <= i < es.len() ==> (#[trigger] es[i]).hidden,
        styled_names(shown(es, false), styled, false),
    ensures
        joined(styled).len() == 0,
{
    lemma_all_hidden_shows_nothing(es);
}

/// A long line of an entry whose name holds no line break (nor an escape
/// character) holds exactly one line break, at its end.
pub proof fn lemma_long_line_shape(e: DirEntryInfo, styled: Seq<char>)
    requires
        !e.name@.contains('\n'),
        !e.name@.contains('\u{1b}'),
        painted(style_of(e), pad_left(e.name@, NAME_WIDTH as nat), styled),
    ensures
        occurrences(long_line_of(e, styled), '\n') == 1,
        long_line_of(e, styled).last() == '\n',
{
    let nl = '\n';
    let ro = pad_left(read_only_text(e.read_only), READ_ONLY_WIDTH as nat);
    let size = pad_left(decimal_of(e.size as nat), SIZE_WIDTH as nat);
    let name = pad_left(e.name@, NAME_WIDTH as nat);
    let sp = seq![' '];
    assert(!read_only_text(e.read_only).contains(nl));
    assert(!ro.contains(nl)) by {
        if ro.contains(nl) {
            let k = choose|k: int| 0 <= k < ro.len() && ro[k] == nl;
            let t = read_only_text(e.read_only);
            if t.len() < READ_ONLY_WIDTH {
                let d = READ_ONLY_WIDTH - t.len();
                if k >= d {
                    assert(t[k - d] == nl);
                }
            }
        }
    }
    lemma_decimal_digits(e.size as nat, nl);
    assert(!size.contains(nl)) by {
        if size.contains(nl) {
            let k = choose|k: int| 0 <= k < size.len() && size[k] == nl;
            let t = decimal_of(e.size as nat);
            if t.len() < SIZE_WIDTH {
                let d = SIZE_WIDTH - t.len();
                if k >= d {
                    assert(t[k - d] == nl);
                }
            }
        }
    }
    assert(!name.contains(nl)) by {
        if name.contains(nl) {
            let k = choose|k: int| 0 <= k < name.len() && name[k] == nl;
            let t = e.name@;
            if t.len() < NAME_WIDTH {
                let d = NAME_WIDTH - t.len();
                if k >= d {
                    assert(t[k - d] == nl);
                }
            }
        }
    }
    assert(!sp.contains(nl));
    lemma_occurrences_contains(ro, nl);
    lemma_occurrences_contains(size, nl);
    lemma_occurrences_contains(name, nl);
    lemma_occurrences_contains(sp, nl);
    lemma_painted_marks(style_of(e), name, styled, nl);
    lemma_occurrences_concat(ro, sp, nl);
    lemma_occurrences_concat(ro + sp, size, nl);
    lemma_occurrences_concat(ro + sp + size, sp, nl);
    lemma_occurrences_concat(ro + sp + size + sp, styled, nl);
    lemma_occurrences_concat(ro + sp + size + sp + styled, seq![nl], nl);
    let one = seq![nl];
    assert(one.drop_last() =~= Seq::<char>::empty());
    assert(occurrences(one.drop_last(), nl) == 0);
    assert(occurrences(one, nl) == 1);
}

/// Long layout: when no name holds a line break (nor an escape character),
/// the listing has exactly one line per shown entry.
pub proof fn lemma_long_listing_lines(es: Seq<DirEntryInfo>, styled: Seq<Seq<char>>)
    requires
        styled_names(es, styled, true),
        forall|i: int|
            0 <= i < es.len() ==> !(#[trigger] es[i]).name@.contains('\n') && !es[i].name@.contains(
                '\u{1b}',
            ),
    ensures
        occurrences(long_lines_of(es, styled), '\n') == es.len(),
    decreases es.len(),
{
    if es.len() > 0 {
        let k = es.len() - 1;
        assert forall|i: int| 0 <= i < es.drop_last().len() implies !(#[trigger] es.drop_last()[i]).name@.contains('\n') && !es.drop_last()[i].name@.contains('\u{1b}') by {
            assert(es.drop_last()[i] == es[i]);
        }
        assert forall|i: int| 0 <= i < es.drop_last().len() && !(#[trigger] es.drop_last()[i]).name@.contains('\u{1b}') implies painted(
            style_of(es.drop_last()[i]),
            pad_left(es.drop_last()[i].name@, NAME_WIDTH as nat),
            styled.drop_last()[i],
        ) by {
            assert(es.drop_last()[i] == es[i]);
            assert(styled.drop_last()[i] == styled[i]);
        }
        lemma_long_listing_lines(es.drop_last(), styled.drop_last());
        lemma_long_line_shape(es[k], styled[k]);
        lemma_occurrences_concat(
            long_lines_of(es.drop_last(), styled.drop_last()),
            long_line_of(es.last(), styled.last()),
            '\n',
        );
    }
}

} // verus!
