//! Error context and the chain rendering shown in logs: every failure
//! carries a short message, and a chain of causes prints as the first
//! message followed by one `Caused by` line per cause.

use vstd::prelude::*;

verus! {

/// An error wrapped with a context message.
#[derive(Debug)]
pub struct ContextedError<E> {
    pub msg: String,
    pub source: E,
}

/// Wrap an error with a context message.
pub fn create_contexted_error<E>(msg: String, e: E) -> (r: ContextedError<E>)
    ensures
        r.msg == msg,
        r.source == e,
{
    ContextedError { msg, source: e }
}

/// The rendering of a message chain: the first message, then each cause on
/// its own indented `Caused by` line.
pub open spec fn chain_text(msgs: Seq<Seq<char>>) -> Seq<char>
    decreases msgs.len(),
{
    if msgs.len() == 0 {
        Seq::<char>::empty()
    } else if msgs.len() == 1 {
        msgs.first()
    } else {
        chain_text(msgs.drop_last()) + "\n  Caused by: "@ + msgs.last()
    }
}

/// Render an error's message chain, outermost context first.
pub fn format_error_chain(messages: &Vec<String>) -> (r: String)
    ensures
        r@ == chain_text(messages@.map_values(|m: String| m@)),
{
    let ghost views = messages@.map_values(|m: String| m@);
    let mut out = String::new();
    let mut i: usize = 0;
    proof {
        assert(out@ =~= chain_text(views.take(0)));
    }
    while i < messages.len()
        invariant
            i <= messages@.len(),
            views == messages@.map_values(|m: String| m@),
            out@ == chain_text(views.take(i as int)),
        decreases messages@.len() - i,
    {
        proof {
            assert(views.take(i as int + 1).drop_last() =~= views.take(i as int));
            assert(views.take(i as int + 1).last() == views[i as int]);
        }
        if i > 0 {
            out.append("\n  Caused by: ");
        }
        out.append(messages[i].as_str());
        proof {
            if i == 0 {
                assert(views.take(1).len() == 1);
                assert(out@ =~= chain_text(views.take(1)));
            } else {
                assert(out@ =~= chain_text(views.take(i as int + 1)));
            }
        }
        i += 1;
    }
    proof {
        assert(views.take(i as int) =~= views);
    }
    out
}

} // verus!
