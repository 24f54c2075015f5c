//! How the numeral of a marked day is decorated.

use vstd::prelude::*;
use vstd::string::StringExecFns;

verus! {

/// `String::push` appends one character to the end of the string.
pub assume_specification[ String::push ](s: &mut String, ch: char)
    ensures
        final(s)@ == old(s)@.push(ch),
;

/// Decorates the numeral of a marked day. A marker is a pure function of the
/// text it is given; nothing here bounds the width of what it returns, so a
/// marker that is to keep the columns of a month aligned has to fit its
/// decoration into the width of a day.
pub trait Marker {
    /// What `decorate` makes of the text `day`. A marker that does not say
    /// otherwise leaves the text as it is.
    open spec fn decorated(&self, day: Seq<char>) -> Seq<char> {
        day
    }

    /// Decorates `day`, the numeral of a marked day in a field of two
    /// characters.
    fn decorate(&self, day: &str) -> (r: String)
        ensures
            r@ == self.decorated(day@),
    ;
}

/// The built-in markers.
#[derive(Clone, Copy, Debug)]
pub enum BasicMarker {
    /// No decoration.
    Plain,
    /// Square brackets: `[12]`.
    SquareBrackets,
    /// Underscores: `_12_`.
    UnderScore,
    /// The given character on both sides.
    Char(char),
}

impl Marker for BasicMarker {
    open spec fn decorated(&self, day: Seq<char>) -> Seq<char> {
        match self {
            BasicMarker::Plain => day,
            BasicMarker::SquareBrackets => seq!['['] + day + seq![']'],
            BasicMarker::UnderScore => seq!['_'] + day + seq!['_'],
            BasicMarker::Char(c) => seq![*c] + day + seq![*c],
        }
    }

    fn decorate(&self, day: &str) -> (r: String) {
        match self {
            BasicMarker::Plain => String::from_str(day),
            BasicMarker::SquareBrackets => {
                let mut r = String::new();
                r.push('[');
                r.append(day);
                r.push(']');
                assert(r@ =~= seq!['['] + day@ + seq![']']);
                r
            },
            BasicMarker::UnderScore => {
                let mut r = String::new();
                r.push('_');
                r.append(day);
                r.push('_');
                assert(r@ =~= seq!['_'] + day@ + seq!['_']);
                r
            },
            BasicMarker::Char(c) => {
                let mut r = String::new();
                r.push(*c);
                r.append(day);
                r.push(*c);
                assert(r@ =~= seq![*c] + day@ + seq![*c]);
                r
            },
        }
    }
}

/// The built-in decorations add nothing or one character on each side.
pub proof fn lemma_basic_decorated_len(marker: BasicMarker, day: Seq<char>)
    ensures
        marker.decorated(day).len() == if marker is Plain {
            day.len()
        } else {
            day.len() + 2
        },
{
}

} // verus!
