//! Local Whisper transcription: model file names and download locations, and
//! the transcript assembled from Whisper's segments.
use vstd::prelude::*;

use crate::text::{concat_all, string_views, trim, trim_chars, chars_of, string_of};

verus! {

/// The file name of the Whisper model of size `model_size`.
pub open spec fn model_file_name(model_size: Seq<char>) -> Seq<char> {
    "ggml-"@ + model_size + ".bin"@
}

/// The model file of every size is named `ggml-`, the size, then `.bin`: the
/// size sits between the two fixed parts unchanged, so different sizes give
/// different files.
pub proof fn lemma_model_file_name(a: Seq<char>, b: Seq<char>)
    ensures
        model_file_name(a) == "ggml-"@ + a + ".bin"@,
        model_file_name(a).len() == a.len() + 9,
        model_file_name(a).subrange(5, a.len() + 5int) == a,
        model_file_name(a) == model_file_name(b) ==> a == b,
{
    reveal_strlit("ggml-");
    reveal_strlit(".bin");
    assert(model_file_name(a).subrange(5, a.len() + 5int) =~= a);
    if model_file_name(a) == model_file_name(b) {
        assert(model_file_name(b).subrange(5, b.len() + 5int) =~= b);
    }
}

/// The file name of the Whisper model of size `model_size`.
pub fn model_filename(model_size: &str) -> (r: String)
    ensures
        r@ == model_file_name(model_size@),
        r@ == "ggml-"@ + model_size@ + ".bin"@,
{
    let mut name = String::from_str("ggml-");
    name.append(model_size);
    name.append(".bin");
    name
}

/// Where the Whisper model of size `model_size` is downloaded from.
pub fn model_download_url(model_size: &str) -> (r: String)
    ensures
        r@ == "https://huggingface.co/ggerganov/whisper.cpp/resolve/main/"@ + model_file_name(
            model_size@,
        ),
        r@ == "https://huggingface.co/ggerganov/whisper.cpp/resolve/main/"@ + ("ggml-"@
            + model_size@ + ".bin"@),
{
    let mut url = String::from_str("https://huggingface.co/ggerganov/whisper.cpp/resolve/main/");
    let name = model_filename(model_size);
    url.append(name.as_str());
    url
}

/// The transcript made of Whisper's segment texts: joined in order, with
/// leading and trailing whitespace removed.
pub fn transcript_from_segments(segments: &Vec<String>) -> (r: String)
    ensures
        r@ == trim(concat_all(string_views(segments@))),
{
    let mut all = String::new();
    let mut i: usize = 0;
    while i < segments.len()
        invariant
            i <= segments.len(),
            all@ == concat_all(string_views(segments@).take(i as int)),
        decreases segments.len() - i,
    {
        all.append(segments[i].as_str());
        assert(string_views(segments@).take(i + 1).drop_last() =~= string_views(segments@).take(
            i as int,
        ));
        i += 1;
    }
    assert(string_views(segments@).take(segments.len() as int) =~= string_views(segments@));
    let chars = chars_of(all.as_str());
    let t = trim_chars(chars.as_slice());
    string_of(t.as_slice())
}

} // verus!
