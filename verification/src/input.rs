//! Aggregation of the request body from file contents, standard-input text,
//! and an optional prompt.

use vstd::prelude::*;
use vstd::string::*;

verus! {

/// The concatenation of the files' contents, each followed by one newline.
pub open spec fn files_body(files: Seq<Seq<char>>) -> Seq<char>
    decreases files.len(),
{
    if files.len() == 0 {
        Seq::empty()
    } else {
        files[0] + "\n"@ + files_body(files.drop_first())
    }
}

pub proof fn lemma_files_body_push(files: Seq<Seq<char>>, x: Seq<char>)
    ensures
        files_body(files.push(x)) == files_body(files) + x + "\n"@,
    decreases files.len(),
{
    if files.len() == 0 {
        assert(files.push(x)[0] == x);
        assert(files.push(x).drop_first() =~= Seq::<Seq<char>>::empty());
        assert(files_body(Seq::<Seq<char>>::empty()) == Seq::<char>::empty());
        assert(files_body(files.push(x)) == x + "\n"@ + Seq::<char>::empty());
        assert(x + "\n"@ + Seq::<char>::empty() =~= x + "\n"@);
        assert(files_body(files) + x + "\n"@ =~= x + "\n"@);
    } else {
        assert(files.push(x).drop_first() =~= files.drop_first().push(x));
        lemma_files_body_push(files.drop_first(), x);
        assert(files_body(files.push(x)) =~= files_body(files) + x + "\n"@);
    }
}

/// The whole message body: the files' contents when any file was named, else
/// the standard-input text; a prompt, when given, is prepended with the
/// `Prompt: ` marker and its own newline.
pub open spec fn composed_input(
    files: Seq<Seq<char>>,
    stdin_text: Seq<char>,
    prompt: Option<Seq<char>>,
) -> Seq<char> {
    let body = if files.len() > 0 {
        files_body(files)
    } else {
        stdin_text
    };
    match prompt {
        Some(p) => "Prompt: "@ + p + "\n"@ + body,
        None => body,
    }
}

/// Builds the single user-message body sent to the endpoint.
///
/// When `files` is non-empty the standard-input text is ignored, matching
/// the rule that named files replace standard input.
pub fn compose_input(files: &Vec<String>, stdin_text: &str, prompt: &Option<String>) -> (r:
    String)
    ensures
        r@ == composed_input(files.deep_view(), stdin_text@, prompt.deep_view()),
{
    let mut out = String::new();
    match prompt {
        Some(p) => {
            out.append("Prompt: ");
            out.append(p.as_str());
            out.append("\n");
        },
        None => {},
    }
    let ghost pre: Seq<char> = out@;
    if files.len() > 0 {
        let mut i: usize = 0;
        proof {
            assert(files.deep_view().take(0) =~= Seq::<Seq<char>>::empty());
        }
        while i < files.len()
            invariant
                i <= files.len(),
                out@ == pre + files_body(files.deep_view().take(i as int)),
            decreases files.len() - i,
        {
            let ghost before = files.deep_view().take(i as int);
            out.append(files[i].as_str());
            out.append("\n");
            proof {
                lemma_files_body_push(before, files.deep_view()[i as int]);
                assert(files.deep_view().take(i as int + 1) =~= before.push(
                    files.deep_view()[i as int],
                ));
                assert(out@ =~= pre + files_body(files.deep_view().take(i as int + 1)));
            }
            i = i + 1;
        }
        proof {
            assert(files.deep_view().take(files@.len() as int) =~= files.deep_view());
        }
    } else {
        out.append(stdin_text);
    }
    out
}

} // verus!
