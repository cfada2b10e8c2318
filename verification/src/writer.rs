//! The prompts of the writing step (first draft) and of the revision step
//! (one annotation at a time). The prompt texts themselves are files the
//! application reads; here they are filled in.

use vstd::prelude::*;
use crate::llm::Message;
use crate::text::{contains, lemma_replace_absent, lemma_replace_single, occurs_at, push_str, replace, replace_str};

verus! {

/// A writing request.
pub struct WritingTask {
    pub topic: String,
    pub article_type: Option<String>,
    pub materials_context: String,
}

/// One annotation on the draft: the selected text and the comment on it.
pub struct Annotation {
    pub selected_text: String,
    pub comment: String,
}

/// The article-type line of the writing prompt: "文章类型：{type}" and a line
/// feed for a non-empty type, nothing otherwise.
pub open spec fn article_type_line(article_type: Option<Seq<char>>) -> Seq<char> {
    match article_type {
        Some(t) => if t.len() > 0 { "文章类型："@ + t + seq!['\n'] } else { Seq::empty() },
        None => Seq::empty(),
    }
}

/// The user prompt of the writing step: the template with `{topic}`,
/// `{article_type}` and `{materials}` replaced, in that order.
pub open spec fn writing_prompt(template: Seq<char>, topic: Seq<char>, type_line: Seq<char>, materials: Seq<char>) -> Seq<char> {
    replace(
        replace(replace(template, "{topic}"@, topic), "{article_type}"@, type_line),
        "{materials}"@,
        materials,
    )
}

/// The user prompt of the revision step: the template with `{draft}`,
/// `{selected_text}` and `{comment}` replaced, in that order.
pub open spec fn revision_prompt(template: Seq<char>, draft: Seq<char>, selected: Seq<char>, comment: Seq<char>) -> Seq<char> {
    replace(
        replace(replace(template, "{draft}"@, draft), "{selected_text}"@, selected),
        "{comment}"@,
        comment,
    )
}

proof fn lemma_placeholders_nonempty()
    ensures
        "{topic}"@.len() > 0,
        "{article_type}"@.len() > 0,
        "{materials}"@.len() > 0,
        "{draft}"@.len() > 0,
        "{selected_text}"@.len() > 0,
        "{comment}"@.len() > 0,
{
    reveal_strlit("{topic}");
    reveal_strlit("{article_type}");
    reveal_strlit("{materials}");
    reveal_strlit("{draft}");
    reveal_strlit("{selected_text}");
    reveal_strlit("{comment}");
}

impl WritingTask {
    /// The messages of the writing step: the system prompt as given, then the
    /// user template filled in (see `writing_prompt`).
    pub fn build_messages(&self, system_prompt: &str, user_template: &str) -> (ms: Vec<Message>)
        ensures
            ms@.len() == 2,
            ms@[0].role@ == "system"@,
            ms@[0].content@ == system_prompt@,
            ms@[1].role@ == "user"@,
            ms@[1].content@ == writing_prompt(
                user_template@,
                self.topic@,
                article_type_line(
                    match self.article_type {
                        Some(t) => Some(t@),
                        None => None,
                    },
                ),
                self.materials_context@,
            ),
    {
        proof { lemma_placeholders_nonempty(); }
        let mut type_line = String::new();
        match &self.article_type {
            Some(t) => {
                if !t.as_str().is_empty() {
                    push_str(&mut type_line, "文章类型：");
                    push_str(&mut type_line, t.as_str());
                    crate::text::push_char(&mut type_line, '\n');
                }
            },
            None => {},
        }
        assert(type_line@ =~= article_type_line(
            match self.article_type {
                Some(t) => Some(t@),
                None => None,
            },
        ));
        let s1 = replace_str(user_template, "{topic}", self.topic.as_str());
        let s2 = replace_str(s1.as_str(), "{article_type}", type_line.as_str());
        let s3 = replace_str(s2.as_str(), "{materials}", self.materials_context.as_str());
        let mut ms: Vec<Message> = Vec::new();
        ms.push(Message::system(system_prompt.to_owned()));
        ms.push(Message::user(s3));
        ms
    }
}

/// The messages of the revision step for the first annotation (an empty
/// selection and comment when there is none): the system prompt as given,
/// then the user template filled in (see `revision_prompt`).
pub fn build_revision_messages(
    draft: &str,
    annotations: &[Annotation],
    system_prompt: &str,
    user_template: &str,
) -> (ms: Vec<Message>)
    ensures
        ms@.len() == 2,
        ms@[0].role@ == "system"@,
        ms@[0].content@ == system_prompt@,
        ms@[1].role@ == "user"@,
        annotations@.len() > 0 ==> ms@[1].content@ == revision_prompt(
            user_template@,
            draft@,
            annotations@[0].selected_text@,
            annotations@[0].comment@,
        ),
        annotations@.len() == 0 ==> ms@[1].content@ == revision_prompt(
            user_template@,
            draft@,
            Seq::empty(),
            Seq::empty(),
        ),
{
    proof { lemma_placeholders_nonempty(); }
    let (selected, comment): (&str, &str) = if annotations.len() > 0 {
        (annotations[0].selected_text.as_str(), annotations[0].comment.as_str())
    } else {
        ("", "")
    };
    proof {
        reveal_strlit("");
        assert(""@ =~= Seq::<char>::empty());
    }
    let s1 = replace_str(user_template, "{draft}", draft);
    let s2 = replace_str(s1.as_str(), "{selected_text}", selected);
    let s3 = replace_str(s2.as_str(), "{comment}", comment);
    let mut ms: Vec<Message> = Vec::new();
    ms.push(Message::system(system_prompt.to_owned()));
    ms.push(Message::user(s3));
    ms
}

/// The draft after a revision: the model's reply, or the draft unchanged
/// when the reply is empty.
pub fn revised_draft(reply: String, draft: String) -> (r: String)
    ensures
        reply@.len() > 0 ==> r@ == reply@,
        reply@.len() == 0 ==> r@ == draft@,
{
    if reply.as_str().is_empty() {
        draft
    } else {
        reply
    }
}

/// The selection fills `{selected_text}` and the comment fills `{comment}`:
/// with the template `{selected_text}|{comment}`, and texts that hold no
/// `{`, the revision prompt is the selection, a bar, and the comment,
/// whatever the draft.
pub proof fn law_revision_fills_selection_and_comment(draft: Seq<char>, selected: Seq<char>, comment: Seq<char>)
    requires
        forall|k: int| 0 <= k < selected.len() ==> selected[k] != '{',
        forall|k: int| 0 <= k < comment.len() ==> comment[k] != '{',
    ensures
        revision_prompt("{selected_text}|{comment}"@, draft, selected, comment) == selected + "|"@ + comment,
{
    reveal_strlit("{selected_text}|{comment}");
    reveal_strlit("{draft}");
    reveal_strlit("{selected_text}");
    reveal_strlit("{comment}");
    reveal_strlit("|{comment}");
    reveal_strlit("|");
    let t = "{selected_text}|{comment}"@;
    let d = "{draft}"@;
    assert(!contains(t, d)) by {
        assert forall|j: int| !occurs_at(t, d, j) by {
            if occurs_at(t, d, j) {
                assert(t.subrange(j, j + 7)[0] == t[j]);
                assert(t.subrange(j, j + 7)[1] == t[j + 1]);
            }
        }
    }
    lemma_replace_absent(t, d, draft);
    let st = "{selected_text}"@;
    let rest = "|{comment}"@;
    assert(t =~= Seq::<char>::empty() + st + rest);
    assert(!contains(rest, st));
    lemma_replace_single(Seq::<char>::empty(), st, rest, selected);
    let s2 = Seq::<char>::empty() + selected + rest;
    let a = selected + "|"@;
    assert(s2 =~= a + "{comment}"@ + Seq::<char>::empty());
    assert forall|k: int| 0 <= k < a.len() implies a[k] != "{comment}"@[0] by {
        if k < selected.len() {
            assert(a[k] == selected[k]);
        }
    }
    assert(!contains(Seq::<char>::empty(), "{comment}"@));
    lemma_replace_single(a, "{comment}"@, Seq::<char>::empty(), comment);
    assert(a + comment + Seq::<char>::empty() =~= selected + "|"@ + comment);
}

/// The draft fills `{draft}`: with the template `{draft}` and texts that
/// hold no `{`, the revision prompt is the draft itself.
pub proof fn law_revision_fills_draft(draft: Seq<char>, selected: Seq<char>, comment: Seq<char>)
    requires
        forall|k: int| 0 <= k < draft.len() ==> draft[k] != '{',
    ensures
        revision_prompt("{draft}"@, draft, selected, comment) == draft,
{
    reveal_strlit("{draft}");
    reveal_strlit("{selected_text}");
    reveal_strlit("{comment}");
    let d = "{draft}"@;
    assert(d =~= Seq::<char>::empty() + d + Seq::<char>::empty());
    assert(!contains(Seq::<char>::empty(), d));
    lemma_replace_single(Seq::<char>::empty(), d, Seq::<char>::empty(), draft);
    assert(Seq::<char>::empty() + draft + Seq::<char>::empty() =~= draft);
    assert(!contains(draft, "{selected_text}"@)) by {
        assert forall|j: int| !occurs_at(draft, "{selected_text}"@, j) by {
            if occurs_at(draft, "{selected_text}"@, j) {
                assert(draft.subrange(j, j + 15)[0] == draft[j]);
            }
        }
    }
    lemma_replace_absent(draft, "{selected_text}"@, selected);
    assert(!contains(draft, "{comment}"@)) by {
        assert forall|j: int| !occurs_at(draft, "{comment}"@, j) by {
            if occurs_at(draft, "{comment}"@, j) {
                assert(draft.subrange(j, j + 9)[0] == draft[j]);
            }
        }
    }
    lemma_replace_absent(draft, "{comment}"@, comment);
}

} // verus!
