//! Command-line flags of the listing tool.

use vstd::prelude::*;
use vstd::string::*;

verus! {

/// How the entries are laid out.
#[derive(Clone, Copy, Debug, PartialEq, Eq, Structural)]
pub enum ListingFormat {
    Long,
    Commas,
    Horizontal,
    Vertical,
}

/// The configuration taken from the command line.
#[derive(Clone, Copy, Debug, PartialEq, Eq, Structural)]
pub struct UsedFlags {
    pub list_format: ListingFormat,
    pub show_hidden: bool,
}

/// Horizontal layout, hidden entries left out.
pub open spec fn default_flags() -> UsedFlags {
    UsedFlags { list_format: ListingFormat::Horizontal, show_hidden: false }
}

impl Default for UsedFlags {
    fn default() -> (r: Self)
        ensures
            r == default_flags(),
    {
        UsedFlags { list_format: ListingFormat::Horizontal, show_hidden: false }
    }
}

/// The token that selects the long layout.
pub open spec fn long_token() -> Seq<char> {
    seq!['-', 'l']
}

/// The token that shows hidden entries.
pub open spec fn hidden_token() -> Seq<char> {
    seq!['-', 'h']
}

/// The flags that an argument list selects. The list starts with the program
/// name and the target path; tokens are only looked at when there are more
/// arguments than those two, and every argument is looked at then. Unknown
/// tokens are ignored, and a token counts however often it appears.
pub open spec fn flags_of(args: Seq<Seq<char>>) -> UsedFlags {
    if args.len() > 2 {
        UsedFlags {
            list_format: if args.contains(long_token()) {
                ListingFormat::Long
            } else {
                ListingFormat::Horizontal
            },
            show_hidden: args.contains(hidden_token()),
        }
    } else {
        default_flags()
    }
}

/// The views of a list of arguments.
pub open spec fn arg_views(params: Seq<String>) -> Seq<Seq<char>> {
    params.map_values(|s: String| s@)
}

/// Reads the flags out of the full argument list.
pub fn parse_params(params: &[String]) -> (r: UsedFlags)
    ensures
        r == flags_of(arg_views(params@)),
{
    let ghost args = arg_views(params@);
    let mut used_params = UsedFlags::default();
    if params.len() > 2 {
        let long = String::from_str("-l");
        let hidden = String::from_str("-h");
        proof {
            reveal_strlit("-l");
            reveal_strlit("-h");
            assert(long@ =~= long_token());
            assert(hidden@ =~= hidden_token());
        }
        let mut i: usize = 0;
        while i < params.len()
            invariant
                args == arg_views(params@),
                long@ == long_token(),
                hidden@ == hidden_token(),
                i <= params@.len(),
                used_params.list_format == (if exists|j: int|
                    0 <= j < i && args[j] == long_token() {
                    ListingFormat::Long
                } else {
                    ListingFormat::Horizontal
                }),
                used_params.show_hidden == exists|j: int| 0 <= j < i && args[j] == hidden_token(),
            decreases params@.len() - i,
        {
            if params[i] == long {
                used_params.list_format = ListingFormat::Long;
            } else if params[i] == hidden {
                used_params.show_hidden = true;
            }
            proof {
                assert(args[i as int] == params@[i as int]@);
                if exists|j: int| 0 <= j < i + 1 && args[j] == long_token() {
                    if args[i as int] != long_token() {
                        let j = choose|j: int| 0 <= j < i + 1 && args[j] == long_token();
                        assert(0 <= j < i && args[j] == long_token());
                    }
                }
                if exists|j: int| 0 <= j < i + 1 && args[j] == hidden_token() {
                    if args[i as int] != hidden_token() {
                        let j = choose|j: int| 0 <= j < i + 1 && args[j] == hidden_token();
                        assert(0 <= j < i && args[j] == hidden_token());
                    }
                }
            }
            i = i + 1;
        }
    }
    used_params
}

/// The flags depend only on which arguments are given, not on their order:
/// two argument lists that are rearrangements of each other select the same
/// flags (`-l -h` and `-h -l` alike).
pub proof fn lemma_flags_ignore_order(a: Seq<Seq<char>>, b: Seq<Seq<char>>)
    requires
        a.to_multiset() =~= b.to_multiset(),
    ensures
        flags_of(a) == flags_of(b),
{
    a.to_multiset_ensures();
    b.to_multiset_ensures();
    assert(a.len() == b.len());
    assert(a.to_multiset().count(long_token()) == b.to_multiset().count(long_token()));
    assert(a.to_multiset().count(hidden_token()) == b.to_multiset().count(hidden_token()));
    assert(a.contains(long_token()) == b.contains(long_token()));
    assert(a.contains(hidden_token()) == b.contains(hidden_token()));
}

} // verus!

verus! {

/// Why a listing cannot be produced.
#[derive(Clone, Copy, Debug, PartialEq, Eq, Structural)]
pub enum ListError {
    /// No target path was given.
    Usage,
    /// The target is not a directory.
    NotADirectory,
    /// The selected layout has no renderer.
    UnimplementedFormat,
}

/// The target path: the argument after the program name.
pub fn target_path(params: &[String]) -> (r: Result<String, ListError>)
    ensures
        r is Ok <==> params@.len() >= 2,
        r is Ok ==> r->Ok_0@ == params@[1]@,
        r is Err ==> r->Err_0 == ListError::Usage,
{
    if params.len() < 2 {
        Err(ListError::Usage)
    } else {
        Ok(params[1].clone())
    }
}

} // verus!
