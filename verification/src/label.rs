//! Symbolic label identifiers and their validator.
//!
//! A label token is written with a leading sigil (`$` or `@`). The validator
//! strips the leading sigils, case-folds the body, and rejects a body that
//! reads as an unsigned 8-bit literal (it would be ambiguous with an
//! immediate operand) or that, re-prefixed as a register token, names a
//! register (ambiguous with a register operand). The normalized body is the
//! label's identity.

use vstd::prelude::*;
use vstd::string::StrSliceExecFns;
use vstd::string::StringExecFns;

use crate::register::spec_register_of;
use crate::register::Register;
use crate::text::fold_case;
use crate::text::lower_of;
use crate::text::parse_u8;
use crate::text::spec_parse_u8;
use crate::text::trim_lead;
use crate::text::skip_leading;

verus! {

/// A validated, normalized label name.
#[derive(Debug)]
pub struct LabelString(pub String);

impl View for LabelString {
    type V = Seq<char>;

    open spec fn view(&self) -> Seq<char> {
        self.0@
    }
}

impl LabelString {
    /// A copy of this label name.
    pub fn duplicate(&self) -> (r: LabelString)
        ensures
            r@ == self@,
    {
        LabelString(self.0.clone())
    }
}

/// Failure of the label validator.
#[derive(Clone, Copy, Debug, PartialEq, Eq, Structural)]
pub enum LabelParseError {
    InvalidPrefix,
    NumericName,
    RegisterName,
}

/// A label token with its leading sigils removed: every leading `$`, then
/// every leading `@`.
pub open spec fn strip_sigils(s: Seq<char>) -> Seq<char> {
    trim_lead(trim_lead(s, '$'), '@')
}

/// The normalized body of a label token: the stripped token, case-folded.
pub open spec fn label_body(s: Seq<char>) -> Seq<char> {
    lower_of(strip_sigils(s))
}

/// What the label validator decides for a token: the normalized body, or the
/// most specific reason the token cannot name a label.
pub open spec fn spec_validate_label(s: Seq<char>) -> Result<Seq<char>, LabelParseError> {
    if s.len() > 0 && (s[0] == '$' || s[0] == '@') {
        if spec_parse_u8(label_body(s)) is Some {
            Err(LabelParseError::NumericName)
        } else if spec_register_of(seq!['%'] + label_body(s)) is Some {
            Err(LabelParseError::RegisterName)
        } else {
            Ok(label_body(s))
        }
    } else {
        Err(LabelParseError::InvalidPrefix)
    }
}

impl LabelString {
    /// Validate a token as a label, yielding its normalized name.
    pub fn from_str(s: &str) -> (r: Result<LabelString, LabelParseError>)
        ensures
            r matches Ok(l) ==> spec_validate_label(s@) == Ok::<Seq<char>, LabelParseError>(l@),
            r matches Err(e) ==> spec_validate_label(s@) == Err::<Seq<char>, LabelParseError>(e),
    {
        let n = s.unicode_len();
        if n == 0 {
            return Err(LabelParseError::InvalidPrefix);
        }
        let first = s.get_char(0);
        if !(first == '$' || first == '@') {
            return Err(LabelParseError::InvalidPrefix);
        }
        let after_dollars = skip_leading(s, 0, '$');
        let after_ats = skip_leading(s, after_dollars, '@');
        proof {
            assert(s@.subrange(0, n as int) =~= s@);
            assert(strip_sigils(s@) == s@.subrange(after_ats as int, n as int));
        }
        let stripped = s.substring_char(after_ats, n);
        let body = fold_case(stripped);
        if parse_u8(body.as_str()).is_some() {
            return Err(LabelParseError::NumericName);
        }
        let mut reg_token = String::from_str("%");
        reg_token.append(body.as_str());
        proof {
            reveal_strlit("%");
            assert(reg_token@ =~= seq!['%'] + label_body(s@));
        }
        if Register::from_str(reg_token.as_str()).is_ok() {
            return Err(LabelParseError::RegisterName);
        }
        Ok(LabelString(body))
    }
}

} // verus!
