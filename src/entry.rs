//! What the listing knows of one directory entry, which entries are shown,
//! and how each is classified for display.

use vstd::prelude::*;

verus! {

/// The attribute bit that marks an entry as hidden in a native attribute word.
pub const FILE_ATTRIBUTE_HIDDEN: u32 = 0x2;

/// The facts about one directory entry that the listing reads.
#[derive(Clone, Debug)]
pub struct DirEntryInfo {
    pub name: String,
    pub is_dir: bool,
    pub is_file: bool,
    pub size: u64,
    pub hidden: bool,
    pub read_only: bool,
}

/// The display class of an entry.
#[derive(Clone, Copy, Debug, PartialEq, Eq, Structural)]
pub enum StyleTag {
    Directory,
    File,
    Other,
}

/// Directories first, then regular files; everything else is `Other`.
pub open spec fn style_of(e: DirEntryInfo) -> StyleTag {
    if e.is_dir {
        StyleTag::Directory
    } else if e.is_file {
        StyleTag::File
    } else {
        StyleTag::Other
    }
}

/// An entry is shown unless it is hidden and hidden entries are not asked for.
pub open spec fn is_shown(e: DirEntryInfo, show_hidden: bool) -> bool {
    !e.hidden || show_hidden
}

/// The shown entries, in the order they were enumerated.
pub open spec fn shown(es: Seq<DirEntryInfo>, show_hidden: bool) -> Seq<DirEntryInfo>
    decreases es.len(),
{
    if es.len() == 0 {
        Seq::empty()
    } else {
        let rest = shown(es.drop_last(), show_hidden);
        if is_shown(es.last(), show_hidden) {
            rest.push(es.last())
        } else {
            rest
        }
    }
}

/// The display class of an entry.
pub fn classify(e: &DirEntryInfo) -> (r: StyleTag)
    ensures
        r == style_of(*e),
{
    if e.is_dir {
        StyleTag::Directory
    } else if e.is_file {
        StyleTag::File
    } else {
        StyleTag::Other
    }
}

/// Whether the entry is listed under the given setting.
pub fn is_included(e: &DirEntryInfo, show_hidden: bool) -> (r: bool)
    ensures
        r == is_shown(*e, show_hidden),
{
    !e.hidden || show_hidden
}

/// Whether a native attribute word has the hidden bit set.
pub fn has_hidden_attribute(attributes: u32) -> (r: bool)
    ensures
        r == (attributes & FILE_ATTRIBUTE_HIDDEN != 0),
{
    attributes & FILE_ATTRIBUTE_HIDDEN > 0
}

/// Whether a name follows the dot-file convention for hidden entries.
pub fn is_dot_name(name: &str) -> (r: bool)
    ensures
        r == (name@.len() > 0 && name@[0] == '.'),
{
    name.unicode_len() > 0 && name.get_char(0) == '.'
}

/// Filtering keeps only entries of the input. With hidden entries left out,
/// no hidden entry remains and every visible one does; with hidden entries
/// asked for, every entry remains, in its order.
pub proof fn lemma_hidden_filter(es: Seq<DirEntryInfo>)
    ensures
        forall|i: int|
            0 <= i < shown(es, false).len() ==> !(#[trigger] shown(es, false)[i]).hidden,
        forall|i: int|
            0 <= i < shown(es, false).len() ==> es.contains(#[trigger] shown(es, false)[i]),
        forall|i: int| 0 <= i < es.len() && !(#[trigger] es[i]).hidden ==> shown(es, false).contains(es[i]),
        shown(es, true) == es,
    decreases es.len(),
{
    if es.len() > 0 {
        let init = es.drop_last();
        lemma_hidden_filter(init);
        assert(shown(es, true) =~= es);
        let s = shown(es, false);
        let si = shown(init, false);
        assert forall|i: int| 0 <= i < s.len() implies es.contains(#[trigger] s[i]) by {
            if i < si.len() {
                assert(s[i] == si[i]);
                let k = choose|k: int| 0 <= k < init.len() && init[k] == si[i];
                assert(es[k] == init[k]);
            } else {
                assert(s[i] == es[es.len() - 1]);
            }
        }
        assert forall|i: int| 0 <= i < es.len() && !(#[trigger] es[i]).hidden implies s.contains(es[i]) by {
            if i < init.len() {
                assert(init[i] == es[i]);
                let k = choose|k: int| 0 <= k < si.len() && si[k] == init[i];
                assert(s[k] == si[k]);
            } else {
                assert(s[s.len() - 1] == es[i]);
            }
        }
    }
}

/// With hidden entries left out, a directory whose entries are all hidden
/// shows nothing.
pub proof fn lemma_all_hidden_shows_nothing(es: Seq<DirEntryInfo>)
    requires
        forall|i: int| 0 <= i < es.len() ==> (#[trigger] es[i]).hidden,
    ensures
        shown(es, false).len() == 0,
    decreases es.len(),
{
    if es.len() > 0 {
        let init = es.drop_last();
        assert forall|i: int| 0 <= i < init.len() implies (#[trigger] init[i]).hidden by {
            assert(init[i] == es[i]);
        }
        lemma_all_hidden_shows_nothing(init);
    }
}

} // verus!
