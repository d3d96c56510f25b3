//! Error values with a causal chain, and their user-visible rendering.

use vstd::prelude::*;

verus! {

/// An error carrying a chain of messages: the first entry describes the
/// failure itself, the rest are its causes, outermost first.
#[derive(Debug)]
pub struct BotError {
    pub messages: Vec<String>,
}

impl BotError {
    /// A well-formed error names at least the failure itself.
    pub open spec fn wf(self) -> bool {
        self.messages@.len() >= 1
    }

    /// The chain of messages, as sequences of characters.
    pub open spec fn chain(self) -> Seq<Seq<char>> {
        self.messages@.map_values(|m: String| m@)
    }

    /// An error with a single message and no causes.
    pub fn new(message: String) -> (e: BotError)
        ensures
            e.wf(),
            e.chain() == seq![message@],
    {
        let messages = vec![message];
        let e = BotError { messages };
        proof {
            assert(e.chain() =~= seq![message@]);
        }
        e
    }

    /// Wraps this error in a new context message, which becomes the head
    /// of the chain; the old chain follows as the causes.
    pub fn wrap(self, context: String) -> (e: BotError)
        ensures
            e.wf(),
            e.chain() == seq![context@] + self.chain(),
    {
        let mut messages = vec![context];
        let mut rest = self.messages;
        messages.append(&mut rest);
        let e = BotError { messages };
        proof {
            assert(e.chain() =~= seq![context@] + self.chain());
        }
        e
    }
}

impl Clone for BotError {
    fn clone(&self) -> (e: Self)
        ensures
            e.chain() == self.chain(),
    {
        let mut messages: Vec<String> = Vec::new();
        let mut i: usize = 0;
        while i < self.messages.len()
            invariant
                i <= self.messages@.len(),
                messages@ =~= self.messages@.subrange(0, i as int),
            decreases self.messages@.len() - i,
        {
            messages.push(self.messages[i].clone());
            i = i + 1;
        }
        let e = BotError { messages };
        proof {
            assert(e.chain() =~= self.chain());
        }
        e
    }
}

/// The rendering of the causes: one line per cause, each introduced by
/// `caused by: `.
pub open spec fn render_causes(causes: Seq<Seq<char>>) -> Seq<char>
    decreases causes.len(),
{
    if causes.len() == 0 {
        Seq::empty()
    } else {
        "\ncaused by: "@ + causes[0] + render_causes(causes.skip(1))
    }
}

/// The user-visible rendering of an error chain: `Error: ` and the head
/// message, then each cause on a line of its own.
pub open spec fn render_chain(chain: Seq<Seq<char>>) -> Seq<char> {
    if chain.len() == 0 {
        "Error: "@
    } else {
        "Error: "@ + chain[0] + render_causes(chain.skip(1))
    }
}

/// Renders an error as the text sent back to the originating channel.
pub fn render_error(e: &BotError) -> (r: String)
    ensures
        r@ == render_chain(e.chain()),
{
    let mut r: String = String::new();
    r.append("Error: ");
    if e.messages.len() == 0 {
        proof {
            assert(r@ =~= render_chain(e.chain()));
        }
        return r;
    }
    r.append(e.messages[0].as_str());
    let mut i: usize = 1;
    while i < e.messages.len()
        invariant
            1 <= i <= e.messages@.len(),
            r@ =~= "Error: "@ + e.chain()[0] + render_causes(e.chain().subrange(1, i as int)),
        decreases e.messages@.len() - i,
    {
        proof {
            lemma_render_causes_snoc(e.chain().subrange(1, i as int), e.chain()[i as int]);
            assert(e.chain().subrange(1, i as int).push(e.chain()[i as int])
                =~= e.chain().subrange(1, i as int + 1));
        }
        r.append("\ncaused by: ");
        r.append(e.messages[i].as_str());
        i = i + 1;
    }
    proof {
        assert(e.chain().subrange(1, e.chain().len() as int) =~= e.chain().skip(1));
        assert(r@ =~= render_chain(e.chain()));
    }
    r
}

/// Appending one more cause extends the rendering by one `caused by: ` line.
proof fn lemma_render_causes_snoc(causes: Seq<Seq<char>>, last: Seq<char>)
    ensures
        render_causes(causes.push(last))
            == render_causes(causes) + "\ncaused by: "@ + last,
    decreases causes.len(),
{
    if causes.len() == 0 {
        let p = causes.push(last);
        assert(p[0] == last);
        assert(p.skip(1) =~= Seq::<Seq<char>>::empty());
        assert(render_causes(p.skip(1)) == Seq::<char>::empty());
        assert(render_causes(p) == "\ncaused by: "@ + last + Seq::<char>::empty());
        assert(render_causes(p)
            =~= render_causes(causes) + "\ncaused by: "@ + last);
    } else {
        assert(causes.push(last).skip(1) =~= causes.skip(1).push(last));
        lemma_render_causes_snoc(causes.skip(1), last);
        assert(render_causes(causes.push(last))
            =~= render_causes(causes) + "\ncaused by: "@ + last);
    }
}

} // verus!
