//! The two tools that change files: what they compute before anything is
//! written.
use vstd::prelude::*;
use crate::text::{count_matches, decimal, push_str, replace_all, replace_first, to_chars, from_chars};
use crate::tools::ToolError;

verus! {

/// Replaces the entire contents of a file, creating it if needed.
#[derive(Debug, Clone, Copy)]
pub struct WriteFile;

/// Replaces one exact region of a file.
#[derive(Debug, Clone, Copy)]
pub struct Patch;

/// Why `patch` was refused, as a value.
pub enum PatchRefusal {
    /// The file does not exist.
    Missing,
    /// `old_string` is empty.
    EmptyOld,
    /// `old_string` does not occur.
    Absent,
    /// `old_string` occurs this many times and `replace_all` is off.
    Ambiguous(nat),
}

/// What `Patch::compute` decides from the current content, the snippet to
/// replace, its replacement and the `replace_all` flag: the refusal, or the
/// new content and how many occurrences were replaced.
pub open spec fn patch_outcome(
    before: Option<Seq<char>>,
    old: Seq<char>,
    new: Seq<char>,
    replace_every: bool,
) -> Result<(Seq<char>, nat), PatchRefusal> {
    match before {
        None => Err(PatchRefusal::Missing),
        Some(b) => if old.len() == 0 {
            Err(PatchRefusal::EmptyOld)
        } else {
            let n = count_matches(b, old);
            if n == 0 {
                Err(PatchRefusal::Absent)
            } else if n > 1 && !replace_every {
                Err(PatchRefusal::Ambiguous(n))
            } else if replace_every {
                Ok((replace_all(b, old, new), n))
            } else {
                Ok((replace_first(b, old, new), 1))
            }
        },
    }
}

/// The error text of each refusal, for the file the model asked for.
pub open spec fn refusal_error(requested: Seq<char>, refusal: PatchRefusal, e: ToolError) -> bool {
    match refusal {
        PatchRefusal::Missing => e matches ToolError::Io { operation, path, source } && operation@
            == "read"@ && path@ == requested && source@
            == "file does not exist — use write_file to create it"@,
        PatchRefusal::EmptyOld => e matches ToolError::InvalidInput { tool, detail } && tool@
            == "patch"@ && detail@
            == "`old_string` must not be empty — use write_file to create a file"@,
        PatchRefusal::Absent => e matches ToolError::InvalidInput { tool, detail } && tool@
            == "patch"@ && detail@ == "`old_string` does not appear in "@ + requested
            + ". It must match character for character, including indentation and line breaks. Read the file first."@,
        PatchRefusal::Ambiguous(n) => e matches ToolError::InvalidInput { tool, detail } && tool@
            == "patch"@ && detail@ == "`old_string` appears "@ + decimal(n) + " times in "@
            + requested
            + ". Add surrounding lines until it is unique, or set replace_all to change all of them."@,
    }
}

impl Patch {
    /// Computes the patched content of a file.
    ///
    /// `before` is the current content, `None` when the file does not exist.
    /// On success it returns the content before, the content after, and how
    /// many occurrences were replaced. A refusal changes nothing and tells the
    /// model how to fix its call.
    pub fn compute(
        requested: &str,
        before: Option<String>,
        old: &str,
        new: &str,
        replace_every: bool,
    ) -> (r: Result<(String, String, usize), ToolError>)
        ensures
            match r {
                Ok((b, a, n)) => before matches Some(bb) && b@ == bb@ && patch_outcome(
                    Some(bb@),
                    old@,
                    new@,
                    replace_every,
                ) == Ok::<(Seq<char>, nat), PatchRefusal>((a@, n as nat)),
                Err(e) => exists|refusal: PatchRefusal|
                    patch_outcome(
                        match before {
                            Some(bb) => Some(bb@),
                            None => None,
                        },
                        old@,
                        new@,
                        replace_every,
                    ) == Err::<(Seq<char>, nat), PatchRefusal>(refusal) && refusal_error(
                        requested@,
                        refusal,
                        e,
                    ),
            },
    {
        let b = match before {
            Some(b) => b,
            None => {
                let e = ToolError::Io {
                    operation: String::from_str("read"),
                    path: String::from_str(requested),
                    source: String::from_str("file does not exist — use write_file to create it"),
                };
                proof {
                    assert(refusal_error(requested@, PatchRefusal::Missing, e));
                }
                return Err(e);
            },
        };
        let old_v = to_chars(old);
        if old_v.len() == 0 {
            let e = ToolError::InvalidInput {
                tool: String::from_str("patch"),
                detail: String::from_str(
                    "`old_string` must not be empty — use write_file to create a file",
                ),
            };
            proof {
                assert(refusal_error(requested@, PatchRefusal::EmptyOld, e));
            }
            return Err(e);
        }
        let bv = to_chars(b.as_str());
        let n = crate::text::count_occurrences(&bv, &old_v);
        if n == 0 {
            let mut detail = String::from_str("`old_string` does not appear in ");
            push_str(&mut detail, requested);
            push_str(
                &mut detail,
                ". It must match character for character, including indentation and line breaks. Read the file first.",
            );
            let e = ToolError::InvalidInput { tool: String::from_str("patch"), detail };
            proof {
                assert(refusal_error(requested@, PatchRefusal::Absent, e));
            }
            return Err(e);
        }
        if n > 1 && !replace_every {
            let mut detail = String::from_str("`old_string` appears ");
            push_str(&mut detail, crate::text::usize_to_string(n).as_str());
            push_str(&mut detail, " times in ");
            push_str(&mut detail, requested);
            push_str(
                &mut detail,
                ". Add surrounding lines until it is unique, or set replace_all to change all of them.",
            );
            let e = ToolError::InvalidInput { tool: String::from_str("patch"), detail };
            proof {
                assert(refusal_error(requested@, PatchRefusal::Ambiguous(n as nat), e));
            }
            return Err(e);
        }
        let new_v = to_chars(new);
        if replace_every {
            let after = from_chars(&crate::text::replace_all_chars(&bv, &old_v, &new_v));
            Ok((b, after, n))
        } else {
            let after = from_chars(&crate::text::replace_first_chars(&bv, &old_v, &new_v));
            Ok((b, after, 1))
        }
    }

    /// What a successful patch reports back.
    pub fn report(replacements: usize, shown: &str) -> (r: String)
        ensures
            r@ == "Replaced "@ + decimal(replacements as nat) + (if replacements == 1 {
                " occurrence"@
            } else {
                " occurrences"@
            }) + " in "@ + shown@ + "."@,
    {
        let mut out = String::from_str("Replaced ");
        push_str(&mut out, crate::text::usize_to_string(replacements).as_str());
        if replacements == 1 {
            push_str(&mut out, " occurrence");
        } else {
            push_str(&mut out, " occurrences");
        }
        push_str(&mut out, " in ");
        push_str(&mut out, shown);
        push_str(&mut out, ".");
        out
    }

    /// `patch` changes files.
    pub fn is_read_only(&self) -> (r: bool)
        ensures
            !r,
    {
        false
    }
}

impl WriteFile {
    /// What a successful write reports back: whether the file was updated or
    /// created, where, and how many bytes it now holds.
    pub fn report(existed: bool, shown: &str, content: &str) -> (r: String)
        ensures
            r@ == (if existed {
                "Updated "@
            } else {
                "Created "@
            }) + shown@ + " ("@ + decimal(crate::tools::utf8_len(content@)) + " bytes)."@,
    {
        let mut out = if existed {
            String::from_str("Updated ")
        } else {
            String::from_str("Created ")
        };
        push_str(&mut out, shown);
        push_str(&mut out, " (");
        let n = crate::tools::byte_len(&to_chars(content));
        push_str(&mut out, from_chars(&crate::text::u128_decimal(n)).as_str());
        push_str(&mut out, " bytes).");
        out
    }

    /// `write_file` changes files.
    pub fn is_read_only(&self) -> (r: bool)
        ensures
            !r,
    {
        false
    }
}

} // verus!
