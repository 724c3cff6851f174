use core::fmt::Debug;
use vstd::prelude::*;
use vstd::string::StringExecFns;
use crate::list::List;

verus! {

/// The texts of `parts` with `", "` between each two of them.
pub open spec fn joined(parts: Seq<Seq<char>>) -> Seq<char>
    decreases parts.len(),
{
    if parts.len() == 0 {
        Seq::empty()
    } else if parts.len() == 1 {
        parts[0]
    } else {
        joined(parts.drop_last()) + seq![',', ' '] + parts.last()
    }
}

/// The text of a list whose elements are written as `parts`: an opening
/// bracket, the parts separated by `", "`, and a closing bracket.
pub open spec fn list_text(parts: Seq<Seq<char>>) -> Seq<char> {
    seq!['['] + joined(parts) + seq![']']
}

/// The characters of each of `parts`.
pub open spec fn texts(parts: Seq<String>) -> Seq<Seq<char>> {
    parts.map_values(|part: String| part@)
}

/// The debug text of `value`, as `format!` writes it for `{:?}`.
///
/// The text is up to the `Debug` impl of the value's type: nothing is
/// claimed of it.
#[verifier::external_body]
fn debug_text<V: Debug>(value: &V) -> (text: String) {
    format!("{:?}", value)
}

/// Writes a list whose elements are written as `parts`.
pub fn render(parts: &Vec<String>) -> (text: String)
    ensures
        text@ == list_text(texts(parts@)),
{
    proof {
        reveal_strlit("[");
        reveal_strlit("]");
    }
    let mut text = String::from_str("[");
    let mut i: usize = 0;
    while i < parts.len()
        invariant
            i <= parts.len(),
            text@ == seq!['['] + joined(texts(parts@).take(i as int)),
        decreases parts.len() - i,
    {
        let ghost done = texts(parts@).take(i as int);
        let ghost more = texts(parts@).take(i + 1);
        proof {
            reveal_strlit(", ");
            assert(more.drop_last() =~= done);
            assert(more.last() == parts@[i as int]@);
        }
        if i > 0 {
            text.append(", ");
        }
        text.append(parts[i].as_str());
        proof {
            if i == 0 {
                assert(joined(done) =~= Seq::<char>::empty());
                assert(joined(more) == more[0]);
            } else {
                assert(joined(more) == joined(done) + seq![',', ' '] + more.last());
            }
            assert(text@ =~= seq!['['] + joined(more));
        }
        i = i + 1;
    }
    proof {
        assert(texts(parts@).take(i as int) =~= texts(parts@));
    }
    text.append("]");
    text
}

impl<T: Debug> List<T> {
    /// The debug text of the list: its elements, each as its own `Debug`
    /// impl writes it, from front to back, separated by `", "` and enclosed
    /// in brackets.
    pub fn debug_string(&self) -> (text: String)
        ensures
            exists|parts: Seq<Seq<char>>|
                parts.len() == self@.len() && text@ == #[trigger] list_text(parts),
    {
        let mut parts: Vec<String> = Vec::new();
        let mut rest = self.iter();
        loop
            invariant
                parts@.len() + rest@.len() == self@.len(),
            ensures
                parts@.len() == self@.len(),
            decreases rest@.len(),
        {
            match rest.next() {
                Some(item) => {
                    parts.push(debug_text(item));
                },
                None => {
                    break ;
                },
            }
        }
        proof {
            assert(texts(parts@).len() == self@.len());
        }
        render(&parts)
    }
}

} // verus!
