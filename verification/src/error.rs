//! The error taxonomy of the resolution and compilation engine.
use crate::color::push_char;
use vstd::prelude::*;

verus! {

broadcast use vstd::seq::group_seq_axioms;

/// A structural authoring mistake that aborts a generation run.
#[derive(Debug, Clone, PartialEq, Eq)]
pub enum ThemeError {
    /// A palette entry whose base directly references the entry itself.
    SelfCycle { name: String },
    /// A palette entry transitively depends on itself; the chain holds
    /// the full offending reference path, each entry referencing the
    /// next and the last referencing the first.
    Cycle { chain: Vec<String> },
    /// A reference names an entry absent from the palette.
    MissingReference { name: String },
    /// A modifier targets the reserved player style namespace.
    InvalidTarget { path: String },
}

/// Mathematical model of [`ThemeError`].
#[verifier::ext_equal]
pub enum ErrorView {
    SelfCycle(Seq<char>),
    Cycle(Seq<Seq<char>>),
    MissingReference(Seq<char>),
    InvalidTarget(Seq<char>),
}

/// The views of a name list.
pub open spec fn strings_view(s: Seq<String>) -> Seq<Seq<char>> {
    s.map_values(|x: String| x@)
}

impl View for ThemeError {
    type V = ErrorView;

    open spec fn view(&self) -> ErrorView {
        match self {
            ThemeError::SelfCycle { name } => ErrorView::SelfCycle(name@),
            ThemeError::Cycle { chain } => ErrorView::Cycle(strings_view(chain@)),
            ThemeError::MissingReference { name } => ErrorView::MissingReference(name@),
            ThemeError::InvalidTarget { path } => ErrorView::InvalidTarget(path@),
        }
    }
}

/// The chain names, each preceded by one space.
pub open spec fn spec_chain_text(chain: Seq<Seq<char>>) -> Seq<char>
    decreases chain.len(),
{
    if chain.len() == 0 {
        Seq::empty()
    } else {
        spec_chain_text(chain.drop_last()) + seq![' '] + chain.last()
    }
}

/// The report each error value produces.
pub open spec fn spec_message(e: ErrorView) -> Seq<char> {
    match e {
        ErrorView::SelfCycle(name) => "cyclic dependency in palette: "@ + name
            + " directly depends on itself"@,
        ErrorView::Cycle(chain) => "cyclic dependency in palette:"@ + spec_chain_text(chain),
        ErrorView::MissingReference(name) => "could not find color "@ + name
            + " in the palette"@,
        ErrorView::InvalidTarget(path) => "style.player cannot be modified with modifiers: "@
            + path,
    }
}

impl ThemeError {
    /// A short human-readable report of the mistake, naming the
    /// offending entry, chain or path.
    pub fn message(&self) -> (r: String)
        ensures
            r@ == spec_message(self@),
    {
        match self {
            ThemeError::SelfCycle { name } => {
                let mut s = String::from_str("cyclic dependency in palette: ");
                s.append(name.as_str());
                s.append(" directly depends on itself");
                s
            },
            ThemeError::Cycle { chain } => {
                let mut s = String::from_str("cyclic dependency in palette:");
                let ghost base = s@;
                let ghost cv = strings_view(chain@);
                let n = chain.len();
                let mut i: usize = 0;
                proof {
                    assert(spec_chain_text(cv.take(0)) =~= Seq::<char>::empty());
                    assert(s@ =~= base + spec_chain_text(cv.take(0)));
                }
                while i < n
                    invariant
                        n == chain@.len(),
                        i <= n,
                        cv == strings_view(chain@),
                        s@ == base + spec_chain_text(cv.take(i as int)),
                    decreases n - i,
                {
                    push_char(&mut s, ' ');
                    s.append(chain[i].as_str());
                    proof {
                        assert(cv.take(i + 1).drop_last() =~= cv.take(i as int));
                        assert(cv.take(i + 1).last() == cv[i as int]);
                        assert(s@ =~= base + spec_chain_text(cv.take(i + 1)));
                    }
                    i += 1;
                }
                proof {
                    assert(cv.take(n as int) =~= cv);
                }
                s
            },
            ThemeError::MissingReference { name } => {
                let mut s = String::from_str("could not find color ");
                s.append(name.as_str());
                s.append(" in the palette");
                s
            },
            ThemeError::InvalidTarget { path } => {
                let mut s = String::from_str(
                    "style.player cannot be modified with modifiers: ",
                );
                s.append(path.as_str());
                s
            },
        }
    }
}

} // verus!
