//! How errors are written out: a message, then the chain of its causes.

use vstd::prelude::*;
use vstd::string::*;

verus! {

/// The lines that name the causes `causes[0]`, `causes[1]`, and so on, each
/// as `Caused by:`, a line break, a tab, the cause and a line break.
pub open spec fn causes_text(causes: Seq<Seq<char>>) -> Seq<char>
    decreases causes.len(),
{
    if causes.len() == 0 {
        Seq::empty()
    } else {
        causes_text(causes.drop_last()) + "Caused by:\n\t"@ + causes.last() + "\n"@
    }
}

/// An error written out with its causes: the message, an empty line, then
/// the causes from the nearest to the farthest.
pub open spec fn chain_text(message: Seq<char>, causes: Seq<Seq<char>>) -> Seq<char> {
    message + "\n\n"@ + causes_text(causes)
}

/// The views of a sequence of strings.
pub open spec fn string_views(strings: Seq<String>) -> Seq<Seq<char>> {
    strings.map_values(|s: String| s@)
}

/// Writes out an error with the chain of its causes.
pub fn error_chain_fmt(message: &str, causes: &Vec<String>) -> (text: String)
    ensures
        text@ == chain_text(message@, string_views(causes@)),
{
    let mut text = String::from_str(message);
    text.append("\n\n");
    let ghost shown = string_views(causes@);
    let mut i: usize = 0;
    assert(shown.take(0) =~= Seq::empty());
    assert(text@ =~= message@ + "\n\n"@ + causes_text(shown.take(0)));
    while i < causes.len()
        invariant
            i <= causes.len(),
            shown == string_views(causes@),
            text@ == message@ + "\n\n"@ + causes_text(shown.take(i as int)),
        decreases causes.len() - i,
    {
        let ghost before = text@;
        text.append("Caused by:\n\t");
        text.append(causes[i].as_str());
        text.append("\n");
        proof {
            let now = shown.take(i + 1);
            assert(now.drop_last() =~= shown.take(i as int));
            assert(now.last() == causes@[i as int]@);
            assert(text@ =~= message@ + "\n\n"@ + causes_text(now));
        }
        i = i + 1;
    }
    assert(shown.take(i as int) =~= shown);
    text
}

} // verus!
