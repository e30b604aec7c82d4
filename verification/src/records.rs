//! Front matter of new decision records.
use vstd::prelude::*;
use crate::error::join_texts;
use crate::graph::texts;
use crate::text::{owned, push_str};

verus! {

/// An option in double quotes.
pub open spec fn quoted(s: Seq<char>) -> Seq<char> {
    "\""@ + s + "\""@
}

/// The options, each quoted.
pub open spec fn quoted_all(opts: Seq<Seq<char>>) -> Seq<Seq<char>> {
    opts.map_values(|o: Seq<char>| quoted(o))
}

/// The front matter of a new decision record: title, type, status (`draft`
/// when none is given), then the decision's context and rationale, its
/// options where there are any, and its outcome where there is one.
pub open spec fn decision_front_matter(
    title: Seq<char>,
    status: Option<Seq<char>>,
    context: Seq<char>,
    rationale: Seq<char>,
    options: Option<Seq<Seq<char>>>,
    outcome: Option<Seq<char>>,
) -> Seq<char> {
    let st = match status {
        Some(s) => s,
        None => "draft"@,
    };
    "title: "@ + title + "\ntype: decision\nstatus: "@ + st + "\n"@ + "decision:\n  context: \""@ + context
        + "\"\n"@ + "  rationale: \""@ + rationale + "\"\n"@ + (match options {
        Some(o) => if o.len() > 0 {
            "  options: ["@ + join_texts(quoted_all(o), ", "@) + "]\n"@
        } else {
            Seq::empty()
        },
        None => Seq::empty(),
    }) + (match outcome {
        Some(o) => "  outcome: \""@ + o + "\"\n"@,
        None => Seq::empty(),
    })
}

/// Builds the front matter of a new decision record.
#[verifier::rlimit(40)]
pub fn decision_front_matter_text(
    title: &str,
    status: Option<&str>,
    context: &str,
    rationale: &str,
    options: Option<&Vec<String>>,
    outcome: Option<&str>,
) -> (res: String)
    ensures
        res@ == decision_front_matter(
            title@,
            match status { Some(s) => Some(s@), None => None },
            context@,
            rationale@,
            match options { Some(o) => Some(texts(o@)), None => None },
            match outcome { Some(o) => Some(o@), None => None },
        ),
{
    let mut fm = owned("title: ");
    push_str(&mut fm, title);
    push_str(&mut fm, "\ntype: decision\nstatus: ");
    match status {
        Some(s) => push_str(&mut fm, s),
        None => push_str(&mut fm, "draft"),
    }
    push_str(&mut fm, "\n");
    push_str(&mut fm, "decision:\n  context: \"");
    push_str(&mut fm, context);
    push_str(&mut fm, "\"\n");
    push_str(&mut fm, "  rationale: \"");
    push_str(&mut fm, rationale);
    push_str(&mut fm, "\"\n");
    let ghost head = fm@;
    match options {
        Some(opts) => {
            if opts.len() > 0 {
                push_str(&mut fm, "  options: [");
                let ghost base = fm@;
                let ghost q = quoted_all(texts(opts@));
                let mut joined = String::new();
                let mut i: usize = 0;
                proof {
                    assert(q.take(0) =~= Seq::<Seq<char>>::empty());
                }
                while i < opts.len()
                    invariant
                        i <= opts@.len(),
                        q == quoted_all(texts(opts@)),
                        joined@ == join_texts(q.take(i as int), ", "@),
                    decreases opts.len() - i,
                {
                    if i > 0 {
                        push_str(&mut joined, ", ");
                    }
                    push_str(&mut joined, "\"");
                    push_str(&mut joined, opts[i].as_str());
                    push_str(&mut joined, "\"");
                    proof {
                        assert(q.take(i + 1).drop_last() =~= q.take(i as int));
                        assert(q.take(i + 1).last() == quoted(opts@[i as int]@));
                        if i == 0 {
                            assert(q.take(1).len() == 1);
                            assert(join_texts(q.take(0), ", "@) =~= Seq::<char>::empty());
                        }
                    }
                    i = i + 1;
                }
                proof {
                    assert(q.take(opts@.len() as int) =~= q);
                }
                push_str(&mut fm, joined.as_str());
                push_str(&mut fm, "]\n");
            }
        },
        None => {},
    }
    match outcome {
        Some(o) => {
            push_str(&mut fm, "  outcome: \"");
            push_str(&mut fm, o);
            push_str(&mut fm, "\"\n");
        },
        None => {},
    }
    proof {
        match options {
            Some(o) => {
                assert(texts(o@).len() == o@.len());
            },
            None => {},
        }
    }
    fm
}

} // verus!
