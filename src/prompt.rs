//! The three prompts sent to the generation service: for a whole diff, for
//! one chunk of it, and for merging the analyses of all chunks.
use vstd::prelude::*;
use crate::chunk::strings_view;
use crate::reply::{error_text, error_view, push_error_text, GenerationError, ErrorKind};
use crate::text::{decimal, push_decimal, push_str};

verus! {

pub const WHOLE_INTRO: &'static str = "You are a senior software engineer specialised in Java and Hibernate migrations.\n\nCONTEXT: migration from Java 8 to 17 and from Hibernate 5 to 6\n\nTASK: Analyse this commit and give a structured summary explaining:\n1. **PURPOSE**: what this change sets out to solve or implement\n2. **IMPACT**: how it affects the system and the migration\n3. **OBSERVATIONS**: important points, risks or considerations\n\nBe concise but informative. Use appropriate technical language.\n\n--- COMMIT MESSAGE ---\n";
pub const WHOLE_DIFF: &'static str = "\n\n--- CODE DIFF ---\n";
pub const WHOLE_END: &'static str = "\n\n--- ANALYSIS ---";

pub const CHUNK_INTRO: &'static str = "You are a senior software engineer analysing part of a large commit.\n\nCONTEXT: migration from Java 8 to 17 and from Hibernate 5 to 6\nCHUNK: ";
pub const CHUNK_OF: &'static str = "/";
pub const CHUNK_TASK: &'static str = " of the commit\n\nTASK: Analyse ONLY this excerpt and identify:\n- The main changes in this chunk\n- The specific purpose of the changes\n- The relevant technical impact\n\nBe concise. This is only a fragment of a larger commit.\n\n--- COMMIT MESSAGE ---\n";
pub const CHUNK_DIFF: &'static str = "\n\n--- DIFF CHUNK ---\n";
pub const CHUNK_END: &'static str = "\n\n--- CHUNK ANALYSIS ---";

pub const SUMMARY_INTRO: &'static str = "You are a senior software engineer consolidating the analyses of a large commit.\n\nCONTEXT: migration from Java 8 to 17 and from Hibernate 5 to 6\n\nTASK: From the analyses of the individual chunks, write a consolidated summary explaining:\n1. **PURPOSE**: the overall aim of the commit\n2. **IMPACT**: the joint effect of all the changes\n3. **OBSERVATIONS**: important points from the complete analysis\n\n--- COMMIT MESSAGE ---\n";
pub const SUMMARY_LIST: &'static str = "\n\n--- CHUNK ANALYSES ---\n";
pub const SUMMARY_END: &'static str = "\n\n--- CONSOLIDATED SUMMARY ---";

pub const ENTRY_START: &'static str = "**Chunk ";
pub const ENTRY_END: &'static str = ":**\n";
pub const ENTRY_SEPARATOR: &'static str = "\n\n";
pub const FAILURE_START: &'static str = "**Error in chunk ";
pub const FAILURE_END: &'static str = ":** ";

/// The prompt for a diff analysed in one request.
pub open spec fn whole_prompt(message: Seq<char>, diff: Seq<char>) -> Seq<char> {
    WHOLE_INTRO@ + message + WHOLE_DIFF@ + diff + WHOLE_END@
}

/// The prompt for chunk `index` (from 1) of `total`.
pub open spec fn chunk_prompt(message: Seq<char>, chunk: Seq<char>, index: nat, total: nat) -> Seq<char> {
    CHUNK_INTRO@ + decimal(index) + CHUNK_OF@ + decimal(total) + CHUNK_TASK@ + message + CHUNK_DIFF@
        + chunk + CHUNK_END@
}

/// One chunk's analysis in the merged list, labelled with its number.
pub open spec fn entry(index: nat, analysis: Seq<char>) -> Seq<char> {
    ENTRY_START@ + decimal(index) + ENTRY_END@ + analysis
}

/// The labelled analyses, numbered from 1 and separated by blank lines.
pub open spec fn labelled(analyses: Seq<Seq<char>>) -> Seq<char>
    decreases analyses.len(),
{
    if analyses.len() == 0 {
        seq![]
    } else if analyses.len() == 1 {
        entry(1, analyses[0])
    } else {
        labelled(analyses.drop_last()) + ENTRY_SEPARATOR@ + entry(analyses.len(), analyses.last())
    }
}

/// The prompt that merges the analyses of all chunks.
pub open spec fn summary_prompt(message: Seq<char>, analyses: Seq<Seq<char>>) -> Seq<char> {
    SUMMARY_INTRO@ + message + SUMMARY_LIST@ + labelled(analyses) + SUMMARY_END@
}

/// What stands in the merged list for a chunk whose request failed.
pub open spec fn failure_note(index: nat, e: (ErrorKind, Seq<char>)) -> Seq<char> {
    FAILURE_START@ + decimal(index) + FAILURE_END@ + error_text(e)
}

/// Builds the prompt for a diff analysed in one request.
pub fn build_analysis_prompt(message: &str, diff: &str) -> (r: String)
    ensures
        r@ == whole_prompt(message@, diff@),
{
    let mut s = String::new();
    push_str(&mut s, WHOLE_INTRO);
    push_str(&mut s, message);
    push_str(&mut s, WHOLE_DIFF);
    push_str(&mut s, diff);
    push_str(&mut s, WHOLE_END);
    assert(s@ =~= whole_prompt(message@, diff@));
    s
}

/// Builds the prompt for chunk `index` (from 1) of `total`.
pub fn build_chunk_analysis_prompt(message: &str, chunk: &str, index: usize, total: usize) -> (r: String)
    ensures
        r@ == chunk_prompt(message@, chunk@, index as nat, total as nat),
{
    let mut s = String::new();
    push_str(&mut s, CHUNK_INTRO);
    push_decimal(&mut s, index as u64);
    push_str(&mut s, CHUNK_OF);
    push_decimal(&mut s, total as u64);
    push_str(&mut s, CHUNK_TASK);
    push_str(&mut s, message);
    push_str(&mut s, CHUNK_DIFF);
    push_str(&mut s, chunk);
    push_str(&mut s, CHUNK_END);
    assert(s@ =~= chunk_prompt(message@, chunk@, index as nat, total as nat));
    s
}

fn push_entry(s: &mut String, index: usize, analysis: &str)
    ensures
        final(s)@ == old(s)@ + entry(index as nat, analysis@),
{
    push_str(s, ENTRY_START);
    push_decimal(s, index as u64);
    push_str(s, ENTRY_END);
    push_str(s, analysis);
    assert(final(s)@ =~= old(s)@ + entry(index as nat, analysis@));
}

/// Builds the prompt that merges the analyses of all chunks.
pub fn build_summary_prompt(message: &str, analyses: &Vec<String>) -> (r: String)
    ensures
        r@ == summary_prompt(message@, strings_view(analyses@)),
{
    let mut s = String::new();
    push_str(&mut s, SUMMARY_INTRO);
    push_str(&mut s, message);
    push_str(&mut s, SUMMARY_LIST);
    let ghost start = s@;
    let ghost all = strings_view(analyses@);
    let mut i: usize = 0;
    while i < analyses.len()
        invariant
            i <= analyses@.len(),
            all == strings_view(analyses@),
            s@ == start + labelled(all.take(i as int)),
        decreases analyses@.len() - i,
    {
        let ghost before = s@;
        assert(all.take(i + 1).drop_last() =~= all.take(i as int));
        assert(all[i as int] == analyses@[i as int]@);
        if i > 0 {
            push_str(&mut s, ENTRY_SEPARATOR);
        }
        push_entry(&mut s, i + 1, analyses[i].as_str());
        if i == 0 {
            assert(s@ =~= start + labelled(all.take(1)));
        } else {
            assert(s@ =~= start + labelled(all.take(i + 1)));
        }
        i = i + 1;
    }
    push_str(&mut s, SUMMARY_END);
    assert(all.take(analyses@.len() as int) =~= all);
    assert(s@ =~= summary_prompt(message@, all));
    s
}

/// Builds what stands in the merged list for chunk `index` whose request failed.
pub fn build_failure_note(index: usize, e: &GenerationError) -> (r: String)
    ensures
        r@ == failure_note(index as nat, error_view(*e)),
{
    let mut s = String::new();
    push_str(&mut s, FAILURE_START);
    push_decimal(&mut s, index as u64);
    push_str(&mut s, FAILURE_END);
    push_error_text(&mut s, e);
    assert(s@ =~= failure_note(index as nat, error_view(*e)));
    s
}

} // verus!
