//! The arguments of the Herdr commands the plugin runs.
use vstd::prelude::*;

verus! {

/// The values of a sequence of strings.
pub open spec fn strings_view(args: Seq<String>) -> Seq<Seq<char>> {
    args.map_values(|a: String| a@)
}

/// `tab list`.
pub fn list_tabs_args() -> (r: Vec<String>)
    ensures
        strings_view(r@) == seq!["tab"@, "list"@],
{
    let mut args = Vec::new();
    args.push(String::from_str("tab"));
    args.push(String::from_str("list"));
    assert(strings_view(args@) =~= seq!["tab"@, "list"@]);
    args
}

/// `tab rename <id> <title>`.
pub fn rename_tab_args(id: &str, title: &str) -> (r: Vec<String>)
    ensures
        strings_view(r@) == seq!["tab"@, "rename"@, id@, title@],
{
    let mut args = Vec::new();
    args.push(String::from_str("tab"));
    args.push(String::from_str("rename"));
    args.push(String::from_str(id));
    args.push(String::from_str(title));
    assert(strings_view(args@) =~= seq!["tab"@, "rename"@, id@, title@]);
    args
}

/// `tab focus <id>`.
pub fn focus_tab_args(id: &str) -> (r: Vec<String>)
    ensures
        strings_view(r@) == seq!["tab"@, "focus"@, id@],
{
    let mut args = Vec::new();
    args.push(String::from_str("tab"));
    args.push(String::from_str("focus"));
    args.push(String::from_str(id));
    assert(strings_view(args@) =~= seq!["tab"@, "focus"@, id@]);
    args
}

/// `workspace list`.
pub fn list_workspaces_args() -> (r: Vec<String>)
    ensures
        strings_view(r@) == seq!["workspace"@, "list"@],
{
    let mut args = Vec::new();
    args.push(String::from_str("workspace"));
    args.push(String::from_str("list"));
    assert(strings_view(args@) =~= seq!["workspace"@, "list"@]);
    args
}

/// The words joined with single spaces.
pub open spec fn joined_words(words: Seq<Seq<char>>) -> Seq<char>
    decreases words.len(),
{
    if words.len() == 0 {
        Seq::empty()
    } else if words.len() == 1 {
        words[0]
    } else {
        joined_words(words.drop_last()) + " "@ + words.last()
    }
}

/// The command line as the error of a failed command shows it: the program
/// and its arguments, separated by spaces.
pub fn command_text(program: &str, args: &[String]) -> (r: String)
    ensures
        r@ == program@ + " "@ + joined_words(strings_view(args@)),
{
    let mut joined = String::new();
    let n = args.len();
    let mut k: usize = 0;
    while k < n
        invariant
            n == args@.len(),
            0 <= k <= n,
            joined@ == joined_words(strings_view(args@).take(k as int)),
        decreases n - k,
    {
        let ghost words = strings_view(args@);
        assert(words.take(k + 1).drop_last() =~= words.take(k as int));
        if k > 0 {
            joined.append(" ");
        }
        joined.append(args[k].as_str());
        proof {
            if k == 0 {
                assert(words.take(1) =~= seq![args@[0]@]);
            }
        }
        k = k + 1;
    }
    assert(strings_view(args@).take(n as int) =~= strings_view(args@));
    let mut text = String::from_str(program);
    text.append(" ");
    text.append(joined.as_str());
    text
}

} // verus!
