//! Problem documents, as an ACME server sends them in place of an answer.

use crate::identifier::Identifier;
use crate::ip;
use crate::text::{self, push_decimal};
use vstd::prelude::*;

verus! {

/// An RFC 7807 problem document as returned by the ACME server
#[derive(Clone, Debug)]
pub struct Problem {
    /// One of an enumerated list of problem types
    ///
    /// See <https://datatracker.ietf.org/doc/html/rfc8555#section-6.7>
    pub kind: Option<String>,
    /// A human-readable explanation of the problem
    pub detail: Option<String>,
    /// The HTTP status code returned for this response
    pub status: Option<u16>,
    /// One or more subproblems associated with specific identifiers
    ///
    /// See <https://www.rfc-editor.org/rfc/rfc8555#section-6.7.1>
    pub subproblems: Vec<Subproblem>,
}

/// An RFC 8555 subproblem document contained within a problem returned by the ACME server
///
/// See <https://www.rfc-editor.org/rfc/rfc8555#section-6.7.1>
#[derive(Clone, Debug)]
pub struct Subproblem {
    /// The identifier associated with this problem
    pub identifier: Option<Identifier>,
    /// One of an enumerated list of problem types
    ///
    /// See <https://datatracker.ietf.org/doc/html/rfc8555#section-6.7>
    pub kind: Option<String>,
    /// A human-readable explanation of the problem
    pub detail: Option<String>,
}

/// The text, if there is any, between `before` and `after`; otherwise nothing.
pub open spec fn enclosed(before: Seq<char>, text: Option<String>, after: Seq<char>) -> Seq<char> {
    match text {
        Some(text) => before + text@ + after,
        None => seq![],
    }
}

/// Whether a response with this HTTP status is an answer, and not a problem document: it is for
/// the informational, the success and the redirection codes.
pub open spec fn is_answer(status: u16) -> bool {
    100 <= status < 400
}

fn push_enclosed(out: &mut String, before: &str, text: &Option<String>, after: &str)
    ensures
        final(out)@ == old(out)@ + enclosed(before@, *text, after@),
{
    if let Some(text) = text {
        out.append(before);
        out.append(text.as_str());
        out.append(after);
    }
    assert(out@ =~= old(out)@ + enclosed(before@, *text, after@));
}

impl Subproblem {
    /// The subproblem as text.
    pub open spec fn text(self) -> Seq<char> {
        (match self.identifier {
            Some(identifier) => "for \""@ + identifier.text(false) + "\""@,
            None => seq![],
        }) + enclosed(": "@, self.detail, ""@) + enclosed(" ("@, self.kind, ")"@)
    }

    fn push(&self, out: &mut String)
        ensures
            final(out)@ == old(out)@ + self.text(),
    {
        proof {
            reveal_strlit("");
        }
        if let Some(identifier) = &self.identifier {
            out.append("for \"");
            out.append(identifier.authorized(false).to_string().as_str());
            out.append("\"");
        }
        push_enclosed(out, ": ", &self.detail, "");
        push_enclosed(out, " (", &self.kind, ")");
        assert(out@ =~= old(out)@ + self.text());
    }

    /// The subproblem as text: the identifier in quotes, the detail, and the type in brackets
    pub fn to_string(&self) -> (text: String)
        ensures
            text@ == self.text(),
    {
        let mut text = String::new();
        self.push(&mut text);
        assert(text@ =~= self.text());
        text
    }
}

impl Problem {
    /// The texts of the subproblems.
    pub open spec fn subproblem_texts(self) -> Seq<Seq<char>> {
        self.subproblems@.map_values(|subproblem: Subproblem| subproblem.text())
    }

    /// The problem as text.
    pub open spec fn text(self) -> Seq<char> {
        "API error"@ + enclosed(": "@, self.detail, ""@) + enclosed(" ("@, self.kind, ")"@) + (
        if self.subproblems@.len() == 0 {
            seq![]
        } else {
            ": "@ + text::decimal(self.subproblems@.len()) + " subproblems: "@ + text::joined(
                self.subproblem_texts(),
                ", "@,
            )
        })
    }

    /// The problem as text: the detail, the type in brackets, and the subproblems
    pub fn to_string(&self) -> (text: String)
        ensures
            text@ == self.text(),
    {
        let mut text = "API error".to_owned();
        push_enclosed(&mut text, ": ", &self.detail, "");
        push_enclosed(&mut text, " (", &self.kind, ")");
        let count = self.subproblems.len();
        if count > 0 {
            text.append(": ");
            push_decimal(&mut text, count as u64);
            text.append(" subproblems: ");
            let ghost before = text@;
            let ghost texts = self.subproblem_texts();
            let mut i: usize = 0;
            while i < count
                invariant
                    i <= count == self.subproblems@.len(),
                    texts == self.subproblem_texts(),
                    text@ == before + text::joined(texts.take(i as int), ", "@) + (if 0 < i < count {
                        ", "@
                    } else {
                        seq![]
                    }),
                decreases count - i,
            {
                let ghost start = text@;
                self.subproblems[i].push(&mut text);
                if i != count - 1 {
                    text.append(", ");
                }
                proof {
                    let next = texts.take(i + 1);
                    assert(next.drop_last() =~= texts.take(i as int));
                    assert(next.last() == self.subproblems@[i as int].text());
                    assert(text@ =~= before + text::joined(next, ", "@) + (if i + 1 < count {
                        ", "@
                    } else {
                        seq![]
                    }));
                }
                i = i + 1;
            }
            assert(texts.take(count as int) =~= texts);
        }
        assert(text@ =~= self.text());
        text
    }

    /// What a response says: the body as the answer (`Ok`) or as a problem document (`Err`)
    ///
    /// The body is an answer if the HTTP status is informational, a success or a redirection.
    pub fn from_response(status: u16, body: Vec<u8>) -> (body_as: Result<Vec<u8>, Vec<u8>>)
        ensures
            body_as == if is_answer(status) {
                Ok::<Vec<u8>, Vec<u8>>(body)
            } else {
                Err(body)
            },
    {
        if 100 <= status && status < 400 {
            Ok(body)
        } else {
            Err(body)
        }
    }
}

/// A response is an answer exactly if its status is of the informational, success or redirection
/// class, which the first of its three digits tells: any two codes of a class are treated alike. The
/// body is passed on whole either way.
pub proof fn law_status_class_decides(
    status: u16,
    body: Vec<u8>,
    result: Result<Vec<u8>, Vec<u8>>,
    other: u16,
    other_body: Vec<u8>,
    other_result: Result<Vec<u8>, Vec<u8>>,
)
    requires
        call_ensures(Problem::from_response, (status, body), result),
        call_ensures(Problem::from_response, (other, other_body), other_result),
    ensures
        result is Ok <==> (status / 100 == 1 || status / 100 == 2 || status / 100 == 3),
        status / 100 == other / 100 ==> result is Ok == other_result is Ok,
        match result {
            Ok(passed) => passed == body,
            Err(passed) => passed == body,
        },
{
}

/// The text of a subproblem names its identifier in quotes, gives its detail behind a colon and its
/// type in brackets, each only if it is there.
pub proof fn law_subproblem_text(subproblem: &Subproblem, text: String)
    requires
        call_ensures(Subproblem::to_string, (subproblem,), text),
    ensures
        text@ == (match subproblem.identifier {
            Some(Identifier::Dns(name)) => "for \""@ + name@ + "\""@,
            Some(Identifier::Ip(addr)) => "for \""@ + ip::ip_text(addr@) + "\""@,
            Some(Identifier::PermanentIdentifier(name)) => "for \""@ + name@ + "\""@,
            Some(Identifier::HardwareModule(name)) => "for \""@ + name@ + "\""@,
            None => seq![],
        }) + (match subproblem.detail {
            Some(detail) => ": "@ + detail@,
            None => seq![],
        }) + (match subproblem.kind {
            Some(kind) => " ("@ + kind@ + ")"@,
            None => seq![],
        }),
{
    reveal_strlit("");
    if let Some(detail) = subproblem.detail {
        assert(": "@ + detail@ + ""@ =~= ": "@ + detail@);
    }
}

/// The text of a problem gives its detail behind a colon and its type in brackets, each only if it
/// is there, and then the number of its subproblems and the texts of all of them, in order and with
/// a comma between each two, if there are any.
pub proof fn law_problem_text(problem: &Problem, text: String, texts: Seq<String>)
    requires
        call_ensures(Problem::to_string, (problem,), text),
        texts.len() == problem.subproblems@.len(),
        forall|i: int|
            0 <= i < texts.len() ==> call_ensures(
                Subproblem::to_string,
                (&problem.subproblems@[i],),
                #[trigger] texts[i],
            ),
    ensures
        text@ == "API error"@ + (match problem.detail {
            Some(detail) => ": "@ + detail@,
            None => seq![],
        }) + (match problem.kind {
            Some(kind) => " ("@ + kind@ + ")"@,
            None => seq![],
        }) + (if texts.len() == 0 {
            seq![]
        } else {
            ": "@ + text::decimal(texts.len()) + " subproblems: "@ + text::joined(
                texts.map_values(|text: String| text@),
                ", "@,
            )
        }),
{
    reveal_strlit("");
    if let Some(detail) = problem.detail {
        assert(": "@ + detail@ + ""@ =~= ": "@ + detail@);
    }
    assert(problem.subproblem_texts() =~= texts.map_values(|text: String| text@)) by {
        assert forall|i: int| 0 <= i < texts.len() implies problem.subproblem_texts()[i]
            == texts[i]@ by {
            assert(call_ensures(Subproblem::to_string, (&problem.subproblems@[i],), texts[i]));
        }
    }
}

} // verus!
