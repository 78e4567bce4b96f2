//! The speech model catalogue, model file locations, the model cache and
//! transcript clean-up.
use vstd::prelude::*;

use crate::text::{
    concat_all, concat_strings, views_of, join_path, joined_path, split_words, trim_whitespace, trimmed,
    words,
};

verus! {

/// One downloadable Whisper model.
#[derive(Clone, Debug)]
pub struct ModelSpec {
    pub name: String,
    pub label: String,
    pub size_mb: u32,
    pub url: String,
}

/// What the settings page shows about a model.
#[derive(Clone, Debug)]
pub struct ModelInfo {
    pub name: String,
    pub label: String,
    pub size_mb: u32,
    pub downloaded: bool,
    pub path: Option<String>,
}

/// The models offered for download, in the order they are listed: name,
/// label, size in MB and download address.
pub open spec fn catalog() -> Seq<(Seq<char>, Seq<char>, u32, Seq<char>)> {
    seq![
        (
            "ggml-tiny"@,
            "Tiny (75 MB) \u{2014} fastest"@,
            75u32,
            "https://huggingface.co/ggerganov/whisper.cpp/resolve/main/ggml-tiny.bin"@,
        ),
        (
            "ggml-base"@,
            "Base (142 MB) \u{2014} recommended"@,
            142u32,
            "https://huggingface.co/ggerganov/whisper.cpp/resolve/main/ggml-base.bin"@,
        ),
        (
            "ggml-small"@,
            "Small (483 MB) \u{2014} better accuracy"@,
            483u32,
            "https://huggingface.co/ggerganov/whisper.cpp/resolve/main/ggml-small.bin"@,
        ),
        (
            "ggml-medium"@,
            "Medium (1.5 GB) \u{2014} high accuracy"@,
            1500u32,
            "https://huggingface.co/ggerganov/whisper.cpp/resolve/main/ggml-medium.bin"@,
        ),
    ]
}

/// `spec` describes entry `i` of the catalogue.
pub open spec fn describes_entry(spec: ModelSpec, i: int) -> bool {
    &&& spec.name@ == catalog()[i].0
    &&& spec.label@ == catalog()[i].1
    &&& spec.size_mb == catalog()[i].2
    &&& spec.url@ == catalog()[i].3
}

fn catalog_entry(name: &str, label: &str, size_mb: u32, url: &str) -> (spec: ModelSpec)
    ensures
        spec.name@ == name@,
        spec.label@ == label@,
        spec.size_mb == size_mb,
        spec.url@ == url@,
{
    ModelSpec {
        name: String::from_str(name),
        label: String::from_str(label),
        size_mb,
        url: String::from_str(url),
    }
}

/// The catalogue of downloadable models.
pub fn model_catalog() -> (entries: Vec<ModelSpec>)
    ensures
        entries@.len() == catalog().len(),
        forall|i: int| 0 <= i < entries@.len() ==> describes_entry(#[trigger] entries@[i], i),
{
    let mut entries: Vec<ModelSpec> = Vec::new();
    entries.push(
        catalog_entry(
            "ggml-tiny",
            "Tiny (75 MB) \u{2014} fastest",
            75,
            "https://huggingface.co/ggerganov/whisper.cpp/resolve/main/ggml-tiny.bin",
        ),
    );
    entries.push(
        catalog_entry(
            "ggml-base",
            "Base (142 MB) \u{2014} recommended",
            142,
            "https://huggingface.co/ggerganov/whisper.cpp/resolve/main/ggml-base.bin",
        ),
    );
    entries.push(
        catalog_entry(
            "ggml-small",
            "Small (483 MB) \u{2014} better accuracy",
            483,
            "https://huggingface.co/ggerganov/whisper.cpp/resolve/main/ggml-small.bin",
        ),
    );
    entries.push(
        catalog_entry(
            "ggml-medium",
            "Medium (1.5 GB) \u{2014} high accuracy",
            1500,
            "https://huggingface.co/ggerganov/whisper.cpp/resolve/main/ggml-medium.bin",
        ),
    );
    entries
}

/// The directory that holds the model files, inside the application's data
/// directory.
pub open spec fn models_dir_of(app_data_dir: Seq<char>) -> Seq<char> {
    joined_path(app_data_dir, "models"@)
}

/// The file of the model called `name` inside `models_dir`.
pub open spec fn model_file_of(models_dir: Seq<char>, name: Seq<char>) -> Seq<char> {
    joined_path(models_dir, name + ".bin"@)
}

/// The models directory `<app_data_dir>/models`.
pub fn models_dir(app_data_dir: &str) -> (dir: String)
    ensures
        dir@ == models_dir_of(app_data_dir@),
{
    join_path(app_data_dir, "models")
}

/// The model file `<models_dir>/<name>.bin`.
pub fn model_path(models_dir: &str, name: &str) -> (path: String)
    ensures
        path@ == model_file_of(models_dir@, name@),
{
    let file = String::from_str(name).concat(".bin");
    join_path(models_dir, file.as_str())
}

/// Model files live at `<app_data_dir>/models/<name>.bin` when the data
/// directory is a non-empty path without a trailing `/` and the name is not
/// an absolute path.
pub proof fn lemma_model_file_location(app_data_dir: Seq<char>, name: Seq<char>)
    requires
        app_data_dir.len() > 0,
        app_data_dir.last() != '/',
        name.len() > 0 ==> name[0] != '/',
    ensures
        model_file_of(models_dir_of(app_data_dir), name) == app_data_dir + "/models/"@ + name
            + ".bin"@,
{
    reveal_strlit("models");
    reveal_strlit("/models/");
    reveal_strlit(".bin");
    let dir = models_dir_of(app_data_dir);
    assert(dir == app_data_dir + seq!['/'] + "models"@);
    assert(dir.last() == 's');
    assert((name + ".bin"@)[0] != '/');
    assert(model_file_of(dir, name) == dir + seq!['/'] + (name + ".bin"@));
    assert(dir + seq!['/'] + (name + ".bin"@) =~= app_data_dir + "/models/"@ + name + ".bin"@);
}

/// `info` describes catalogue entry `i`, with `downloaded` telling whether
/// its file is present under `app_data_dir`.
pub open spec fn describes_model(info: ModelInfo, i: int, app_data_dir: Seq<char>, downloaded: bool) -> bool {
    &&& info.name@ == catalog()[i].0
    &&& info.label@ == catalog()[i].1
    &&& info.size_mb == catalog()[i].2
    &&& info.downloaded == downloaded
    &&& if downloaded {
        &&& info.path is Some
        &&& info.path->Some_0@ == model_file_of(models_dir_of(app_data_dir), catalog()[i].0)
    } else {
        info.path is None
    }
}

/// The model list for the settings page, given for each catalogue entry
/// whether its file is present.
pub fn model_infos(app_data_dir: &str, downloaded: &[bool]) -> (infos: Vec<ModelInfo>)
    requires
        downloaded@.len() == catalog().len(),
    ensures
        infos@.len() == catalog().len(),
        forall|i: int|
            #![trigger infos@[i]]
            0 <= i < infos@.len() ==> {
                &&& infos@[i].name@ == catalog()[i].0
                &&& infos@[i].label@ == catalog()[i].1
                &&& infos@[i].size_mb == catalog()[i].2
                &&& infos@[i].downloaded == downloaded@[i]
                &&& infos@[i].path is Some <==> downloaded@[i]
                &&& downloaded@[i] ==> infos@[i].path->Some_0@ == joined_path(
                    joined_path(app_data_dir@, "models"@),
                    catalog()[i].0 + ".bin"@,
                )
            },
        forall|i: int|
            0 <= i < infos@.len() ==> describes_model(
                #[trigger] infos@[i],
                i,
                app_data_dir@,
                downloaded@[i],
            ),
{
    let entries = model_catalog();
    let dir = models_dir(app_data_dir);
    let mut infos: Vec<ModelInfo> = Vec::new();
    let mut i: usize = 0;
    while i < entries.len()
        invariant
            i <= entries@.len(),
            entries@.len() == catalog().len(),
            downloaded@.len() == catalog().len(),
            forall|k: int| 0 <= k < entries@.len() ==> describes_entry(#[trigger] entries@[k], k),
            dir@ == models_dir_of(app_data_dir@),
            infos@.len() == i,
            forall|k: int|
                0 <= k < i ==> describes_model(#[trigger] infos@[k], k, app_data_dir@, downloaded@[k]),
        decreases entries@.len() - i,
    {
        let entry = &entries[i];
        let present = downloaded[i];
        let path = if present {
            Some(model_path(dir.as_str(), entry.name.as_str()))
        } else {
            None
        };
        infos.push(
            ModelInfo {
                name: entry.name.clone(),
                label: entry.label.clone(),
                size_mb: entry.size_mb,
                downloaded: present,
                path,
            },
        );
        i = i + 1;
    }
    infos
}

/// `file_exists` answered `answer` when asked about the file at `path`.
pub open spec fn existence_answer<F: Fn(&str) -> bool>(file_exists: F, path: Seq<char>, answer: bool) -> bool {
    exists|p: &str| p@ == path && #[trigger] file_exists.ensures((p,), answer)
}

/// The model list for the settings page: every catalogue entry, in order,
/// marked downloaded when `file_exists` says its own model file
/// `<app_data_dir>/models/<name>.bin` is present.
pub fn list_models<F: Fn(&str) -> bool>(app_data_dir: &str, file_exists: F) -> (infos: Vec<ModelInfo>)
    requires
        forall|p: &str| file_exists.requires((p,)),
    ensures
        infos@.len() == catalog().len(),
        forall|i: int|
            0 <= i < infos@.len() ==> describes_model(
                #[trigger] infos@[i],
                i,
                app_data_dir@,
                infos@[i].downloaded,
            ) && existence_answer(
                file_exists,
                model_file_of(models_dir_of(app_data_dir@), catalog()[i].0),
                infos@[i].downloaded,
            ),
{
    let entries = model_catalog();
    let dir = models_dir(app_data_dir);
    let mut present: Vec<bool> = Vec::new();
    let mut i: usize = 0;
    while i < entries.len()
        invariant
            i <= entries@.len(),
            entries@.len() == catalog().len(),
            forall|k: int| 0 <= k < entries@.len() ==> describes_entry(#[trigger] entries@[k], k),
            dir@ == models_dir_of(app_data_dir@),
            forall|p: &str| file_exists.requires((p,)),
            present@.len() == i,
            forall|k: int|
                0 <= k < i ==> existence_answer(
                    file_exists,
                    model_file_of(models_dir_of(app_data_dir@), catalog()[k].0),
                    #[trigger] present@[k],
                ),
        decreases entries@.len() - i,
    {
        let path = model_path(dir.as_str(), entries[i].name.as_str());
        let p = path.as_str();
        let answer = file_exists(p);
        proof {
            assert(existence_answer(
                file_exists,
                model_file_of(models_dir_of(app_data_dir@), catalog()[i as int].0),
                answer,
            ));
        }
        present.push(answer);
        i = i + 1;
    }
    model_infos(app_data_dir, present.as_slice())
}

// ---------------------------------------------------------------------------
// Hallucination guard
// ---------------------------------------------------------------------------

/// Word `k` repeats the word `n` places before it.
pub open spec fn echoes(w: Seq<Seq<char>>, n: int, k: int) -> bool {
    w[k] == w[k - n]
}

/// The `n` words starting at `p` occur five times in a row: the words
/// `p .. p + 5n` repeat with period `n`.
pub open spec fn phrase_repeats_five_times(w: Seq<Seq<char>>, n: int, p: int) -> bool {
    &&& 0 <= p
    &&& p + 5 * n <= w.len()
    &&& forall|k: int| p + n <= k < p + 5 * n ==> #[trigger] echoes(w, n, k)
}

/// A transcript looks like a hallucination loop: some word or phrase of up
/// to three words repeats five or more times in a row.
pub open spec fn is_repetitive_words(w: Seq<Seq<char>>) -> bool {
    exists|n: int, p: int| 1 <= n <= 3 && #[trigger] phrase_repeats_five_times(w, n, p)
}

/// `u` five times in a row.
pub open spec fn five_copies(u: Seq<Seq<char>>) -> Seq<Seq<char>> {
    u + (u + (u + (u + u)))
}

/// Five copies of a phrase repeat it: every word of the copies from the
/// second copy on equals the word one phrase length before it.
proof fn lemma_five_copies_periodic(u: Seq<Seq<char>>)
    ensures
        five_copies(u).len() == 5 * u.len(),
        forall|m: int| 0 <= m < u.len() ==> #[trigger] five_copies(u)[m] == u[m],
        forall|m: int|
            u.len() <= m < 5 * u.len() ==> #[trigger] five_copies(u)[m] == five_copies(u)[m - u.len()],
{
    let n = u.len() as int;
    let c2 = u + u;
    let c3 = u + c2;
    let c4 = u + c3;
    let c5 = u + c4;
    assert(c5 == five_copies(u));
    assert forall|i: int| 0 <= i < 2 * n implies #[trigger] c3[i] == c2[i] by {
        if i >= n {
            assert(c3[i] == c2[i - n]);
            assert(c2[i] == u[i - n]);
        }
    }
    assert forall|i: int| 0 <= i < 3 * n implies #[trigger] c4[i] == c3[i] by {
        if i >= n {
            assert(c4[i] == c3[i - n]);
            assert(c3[i] == c2[i - n]);
            assert(c3[i - n] == c2[i - n]);
        }
    }
    assert forall|i: int| 0 <= i < 4 * n implies #[trigger] c5[i] == c4[i] by {
        if i >= n {
            assert(c5[i] == c4[i - n]);
            assert(c4[i] == c3[i - n]);
            assert(c4[i - n] == c3[i - n]);
        }
    }
    assert forall|m: int| n <= m < 5 * n implies #[trigger] c5[m] == c5[m - n] by {
        assert(c5[m] == c4[m - n]);
        assert(c5[m - n] == c4[m - n]);
    }
}

proof fn lemma_repeat_matches_copies(w: Seq<Seq<char>>, n: int, p: int, k: int)
    requires
        1 <= n,
        phrase_repeats_five_times(w, n, p),
        p <= k < p + 5 * n,
    ensures
        w[k] == five_copies(w.subrange(p, p + n))[k - p],
    decreases k - p,
{
    let u = w.subrange(p, p + n);
    lemma_five_copies_periodic(u);
    if k >= p + n {
        assert(echoes(w, n, k));
        lemma_repeat_matches_copies(w, n, p, k - n);
        assert(five_copies(u)[k - p] == five_copies(u)[k - p - n]);
    }
}

/// A word list looks like a hallucination loop exactly when it is made of
/// some words, then a phrase of one to three words five times in a row,
/// then some more words.
pub proof fn lemma_repetitive_means_five_copies(w: Seq<Seq<char>>)
    ensures
        is_repetitive_words(w) <==> exists|a: Seq<Seq<char>>, u: Seq<Seq<char>>, b: Seq<Seq<char>>|
            1 <= u.len() <= 3 && w == #[trigger] (a + five_copies(u) + b),
{
    if is_repetitive_words(w) {
        let (n, p) = choose|n: int, p: int| 1 <= n <= 3 && #[trigger] phrase_repeats_five_times(w, n, p);
        let u = w.subrange(p, p + n);
        let a = w.take(p);
        let b = w.skip(p + 5 * n);
        lemma_five_copies_periodic(u);
        assert forall|k: int| p <= k < p + 5 * n implies w[k] == five_copies(u)[k - p] by {
            lemma_repeat_matches_copies(w, n, p, k);
        }
        assert(w =~= a + five_copies(u) + b);
    }
    if exists|a: Seq<Seq<char>>, u: Seq<Seq<char>>, b: Seq<Seq<char>>|
        1 <= u.len() <= 3 && w == #[trigger] (a + five_copies(u) + b) {
        let (a, u, b) = choose|a: Seq<Seq<char>>, u: Seq<Seq<char>>, b: Seq<Seq<char>>|
            1 <= u.len() <= 3 && w == #[trigger] (a + five_copies(u) + b);
        let n = u.len() as int;
        let p = a.len() as int;
        lemma_five_copies_periodic(u);
        assert forall|k: int| p + n <= k < p + 5 * n implies #[trigger] echoes(w, n, k) by {
            assert(w[k] == five_copies(u)[k - p]);
            assert(w[k - n] == five_copies(u)[k - p - n]);
        }
        assert(phrase_repeats_five_times(w, n, p));
    }
}

/// The number of consecutive positions ending just before `i` whose word
/// echoes the word `n` places before it.
pub open spec fn echo_run(w: Seq<Seq<char>>, n: int, i: int) -> int
    decreases i,
{
    if n < 1 || i <= n || i > w.len() {
        0
    } else if echoes(w, n, i - 1) {
        echo_run(w, n, i - 1) + 1
    } else {
        0
    }
}

proof fn lemma_echo_run_spans(w: Seq<Seq<char>>, n: int, i: int)
    requires
        n >= 1,
        n <= i <= w.len(),
    ensures
        0 <= echo_run(w, n, i) <= i - n,
        forall|k: int| i - echo_run(w, n, i) <= k < i ==> #[trigger] echoes(w, n, k),
    decreases i,
{
    if i > n && echoes(w, n, i - 1) {
        lemma_echo_run_spans(w, n, i - 1);
    }
}

proof fn lemma_echo_run_at_least(w: Seq<Seq<char>>, n: int, a: int, i: int)
    requires
        n >= 1,
        n <= a <= i <= w.len(),
        forall|k: int| a <= k < i ==> #[trigger] echoes(w, n, k),
    ensures
        echo_run(w, n, i) >= i - a,
    decreases i,
{
    if i > a {
        assert(echoes(w, n, i - 1));
        lemma_echo_run_at_least(w, n, a, i - 1);
        assert(echo_run(w, n, i) == echo_run(w, n, i - 1) + 1);
    } else {
        lemma_echo_run_spans(w, n, i);
    }
}

/// Whether some phrase of `n` words repeats five times in a row.
fn repeats_with_period(ws: &Vec<String>, n: usize) -> (found: bool)
    requires
        1 <= n <= 3,
    ensures
        found == exists|p: int| #[trigger]
            phrase_repeats_five_times(views_of(ws@), n as int, p),
{
    let ghost w = views_of(ws@);
    let len = ws.len();
    if len < n {
        proof {
            assert forall|p: int| !#[trigger] phrase_repeats_five_times(w, n as int, p) by {}
        }
        return false;
    }
    let mut i: usize = n;
    let mut run: usize = 0;
    while i < len
        invariant
            1 <= n <= 3,
            len == ws@.len(),
            w == views_of(ws@),
            n <= i <= len,
            run == echo_run(w, n as int, i as int),
            forall|q: int| n <= q <= i ==> #[trigger] echo_run(w, n as int, q) < 4 * n,
        decreases len - i,
    {
        proof {
            lemma_echo_run_spans(w, n as int, i as int);
        }
        if ws[i] == ws[i - n] {
            run = run + 1;
        } else {
            run = 0;
        }
        i = i + 1;
        if run >= 4 * n {
            proof {
                lemma_echo_run_spans(w, n as int, i as int);
                let p = i - 5 * n;
                assert(phrase_repeats_five_times(w, n as int, p));
            }
            return true;
        }
    }
    proof {
        assert forall|p: int| !#[trigger] phrase_repeats_five_times(w, n as int, p) by {
            if phrase_repeats_five_times(w, n as int, p) {
                lemma_echo_run_at_least(w, n as int, p + n, p + 5 * n);
                assert(echo_run(w, n as int, p + 5 * n) < 4 * n);
            }
        }
    }
    false
}

/// Whether the word list looks like a hallucination loop (see
/// `is_repetitive_words`).
pub fn has_repeated_phrase(ws: &Vec<String>) -> (repetitive: bool)
    ensures
        repetitive == is_repetitive_words(views_of(ws@)),
{
    let ghost w = views_of(ws@);
    let mut n: usize = 1;
    while n <= 3
        invariant
            1 <= n <= 4,
            w == views_of(ws@),
            forall|m: int, p: int| 1 <= m < n ==> !#[trigger] phrase_repeats_five_times(w, m, p),
        decreases 4 - n,
    {
        if repeats_with_period(ws, n) {
            return true;
        }
        n = n + 1;
    }
    false
}

/// Returns true when any word or short phrase (up to three words) repeats
/// five or more times consecutively: a reliable sign of a Whisper
/// hallucination loop.
pub fn is_repetitive(text: &str) -> (repetitive: bool)
    ensures
        repetitive == is_repetitive_words(words(text@)),
{
    let ws = split_words(text);
    proof {
        assert(views_of(ws@) =~= words(text@));
    }
    has_repeated_phrase(&ws)
}

/// The text kept from the recognised segments: their concatenation without
/// surrounding whitespace, or nothing when it looks like a hallucination loop.
pub open spec fn transcript_text(segments: Seq<Seq<char>>) -> Seq<char> {
    let text = trimmed(concat_all(segments));
    if is_repetitive_words(words(text)) {
        seq![]
    } else {
        text
    }
}

/// Joins the recognised segments, trims the result and drops it when it
/// looks like a hallucination loop.
pub fn finish_transcript(segments: &Vec<String>) -> (text: String)
    ensures
        text@ == transcript_text(views_of(segments@)),
        ({
            let kept = trimmed(concat_all(views_of(segments@)));
            &&& text@ == kept || text@.len() == 0
            &&& forall|a: Seq<Seq<char>>, u: Seq<Seq<char>>, b: Seq<Seq<char>>|
                1 <= u.len() <= 3 && words(kept) == #[trigger] (a + five_copies(u) + b) ==> text@.len()
                    == 0
            &&& (forall|a: Seq<Seq<char>>, u: Seq<Seq<char>>, b: Seq<Seq<char>>|
                1 <= u.len() <= 3 ==> words(kept) != #[trigger] (a + five_copies(u) + b)) ==> text@
                == kept
        }),
{
    proof {
        lemma_repetitive_means_five_copies(words(trimmed(concat_all(views_of(segments@)))));
    }
    let joined = concat_strings(segments);
    let kept = trim_whitespace(joined.as_str());
    if is_repetitive(kept) {
        return String::new();
    }
    String::from_str(kept)
}


// ---------------------------------------------------------------------------
// Model cache
// ---------------------------------------------------------------------------

/// The message given when a model file cannot be opened.
pub open spec fn load_failure_message() -> Seq<char> {
    "Failed to load Whisper model \u{2014} ensure the model file exists"@
}

/// The message given when transcription is asked for before any model is
/// loaded.
pub open spec fn not_loaded_message() -> Seq<char> {
    "Model not loaded"@
}

/// Keeps one loaded speech model in memory across recordings, together with
/// the path it was loaded from. `C` is the loaded model context.
pub struct Transcriber<C> {
    context: Option<C>,
    loaded_model: Option<String>,
}

impl<C> Transcriber<C> {
    /// A context is held exactly when the path it came from is known.
    #[verifier::type_invariant]
    spec fn holds_path_of_context(self) -> bool {
        self.context.is_some() == self.loaded_model.is_some()
    }

    /// The path of the loaded model, if any.
    pub closed spec fn loaded(self) -> Option<Seq<char>> {
        match self.loaded_model {
            Some(path) => Some(path@),
            None => None,
        }
    }

    /// The loaded model context, if any.
    pub closed spec fn context(self) -> Option<C> {
        self.context
    }

    /// An empty cache: nothing is loaded.
    pub fn new() -> (t: Self)
        ensures
            t.loaded() is None,
            t.context() is None,
    {
        Transcriber { context: None, loaded_model: None }
    }

    /// Whether the model at `path` is the one held in memory.
    pub fn is_loaded_for(&self, path: &str) -> (loaded: bool)
        ensures
            loaded == (self.loaded() == Some(path@)),
    {
        match &self.loaded_model {
            Some(key) => *key == String::from_str(path),
            None => false,
        }
    }

    /// Loads (or reloads) the model at `model_path` with `open`, unless that
    /// very model is already loaded, in which case `open` is not called.
    /// When `open` fails the cache is left as it was.
    pub fn load<E, F: FnOnce(&str) -> Result<C, E>>(&mut self, model_path: &str, open: F) -> (res:
        Result<(), String>)
        requires
            open.requires((model_path,)),
        ensures
            old(self).loaded() == Some(model_path@) ==> res is Ok && *final(self) == *old(self),
            old(self).loaded() != Some(model_path@) ==> {
                &&& res is Ok ==> exists|c: C|
                    open.ensures((model_path,), Ok(c)) && final(self).context() == Some(c)
                &&& res is Err ==> exists|e: E| open.ensures((model_path,), Err(e))
            },
            res is Ok ==> final(self).loaded() == Some(model_path@) && final(self).context() is Some,
            res is Err ==> *final(self) == *old(self) && res->Err_0@ == load_failure_message(),
    {
        proof {
            use_type_invariant(&*self);
        }
        if self.is_loaded_for(model_path) {
            return Ok(());
        }
        match open(model_path) {
            Ok(ctx) => {
                *self = Transcriber {
                    context: Some(ctx),
                    loaded_model: Some(String::from_str(model_path)),
                };
                Ok(())
            },
            Err(_) => {
                let msg = String::from_str(
                    "Failed to load Whisper model \u{2014} ensure the model file exists",
                );
                Err(msg)
            },
        }
    }

    /// Transcribes with the loaded model: `run` performs recognition on the
    /// context and hands back the recognised segments, and the text kept is
    /// `transcript_text` of them. Without a loaded model the answer is
    /// `Model not loaded` and `run` is not called; an error of `run` is
    /// handed on.
    pub fn transcribe<F: FnOnce(&C) -> Result<Vec<String>, String>>(&self, run: F) -> (res: Result<
        String,
        String,
    >)
        requires
            forall|c: &C| run.requires((c,)),
        ensures
            self.context() is None ==> res is Err && res->Err_0@ == not_loaded_message(),
            self.context() is Some ==> exists|out: Result<Vec<String>, String>|
                {
                    &&& run.ensures((&self.context()->Some_0,), out)
                    &&& match out {
                        Ok(segments) => res is Ok && res->Ok_0@ == transcript_text(
                            views_of(segments@),
                        ),
                        Err(e) => res == Err::<String, String>(e),
                    }
                },
    {
        match &self.context {
            None => Err(String::from_str("Model not loaded")),
            Some(ctx) => {
                let out = run(ctx);
                match out {
                    Ok(segments) => Ok(finish_transcript(&segments)),
                    Err(e) => Err(e),
                }
            },
        }
    }
}

} // verus!
