//! The speech models on offer, where they are kept, and how a download
//! resumes.
use vstd::prelude::*;

use crate::paths::{join, join_path, path_with_extension, with_extension};
use crate::text::str_eq;

verus! {

#[derive(Clone, Copy, PartialEq, Eq, Structural, Debug, Hash)]
pub enum WhisperModel {
    TinyEn,
    SmallEn,
    MediumEn,
}

/// The model picked by `id`: `tiny.en`, `small.en` or `medium.en`, with `_`
/// accepted in place of the dot.
pub open spec fn model_of_id(s: Seq<char>) -> Option<WhisperModel> {
    if s == "tiny.en"@ || s == "tiny_en"@ {
        Some(WhisperModel::TinyEn)
    } else if s == "small.en"@ || s == "small_en"@ {
        Some(WhisperModel::SmallEn)
    } else if s == "medium.en"@ || s == "medium_en"@ {
        Some(WhisperModel::MediumEn)
    } else {
        None
    }
}

pub open spec fn model_id(m: WhisperModel) -> Seq<char> {
    match m {
        WhisperModel::TinyEn => "tiny.en"@,
        WhisperModel::SmallEn => "small.en"@,
        WhisperModel::MediumEn => "medium.en"@,
    }
}

pub open spec fn model_filename(m: WhisperModel) -> Seq<char> {
    "ggml-"@ + model_id(m) + ".bin"@
}

pub open spec fn model_url(m: WhisperModel) -> Seq<char> {
    "https://huggingface.co/ggerganov/whisper.cpp/resolve/main/"@ + model_filename(m)
}

pub open spec fn expected_size(m: WhisperModel) -> u64 {
    match m {
        WhisperModel::TinyEn => 40894464,
        WhisperModel::SmallEn => 488636416,
        WhisperModel::MediumEn => 1488977920,
    }
}

/// A file at least nine tenths of the expected size counts as complete.
pub open spec fn min_complete_size(m: WhisperModel) -> u64 {
    (expected_size(m) * 9 / 10) as u64
}

pub open spec fn model_display_name(m: WhisperModel) -> Seq<char> {
    match m {
        WhisperModel::TinyEn => "Tiny — fastest (39 MB, ~3x faster, lower accuracy)"@,
        WhisperModel::SmallEn => "Small — balanced (466 MB, default)"@,
        WhisperModel::MediumEn => "Medium — most accurate (1.4 GB, ~2x slower)"@,
    }
}

impl WhisperModel {
    /// The model used when none is chosen.
    pub const DEFAULT: WhisperModel = WhisperModel::SmallEn;

    pub fn from_id(s: &str) -> (r: Option<WhisperModel>)
        ensures
            r == model_of_id(s@),
    {
        if str_eq(s, "tiny.en") || str_eq(s, "tiny_en") {
            Some(WhisperModel::TinyEn)
        } else if str_eq(s, "small.en") || str_eq(s, "small_en") {
            Some(WhisperModel::SmallEn)
        } else if str_eq(s, "medium.en") || str_eq(s, "medium_en") {
            Some(WhisperModel::MediumEn)
        } else {
            None
        }
    }

    pub fn id(&self) -> (r: &'static str)
        ensures
            r@ == model_id(*self),
    {
        match self {
            WhisperModel::TinyEn => "tiny.en",
            WhisperModel::SmallEn => "small.en",
            WhisperModel::MediumEn => "medium.en",
        }
    }

    /// `ggml-<id>.bin`.
    pub fn filename(&self) -> (r: String)
        ensures
            r@ == model_filename(*self),
    {
        let mut s = String::from_str("ggml-");
        s.append(self.id());
        s.append(".bin");
        s
    }

    /// Where the model is downloaded from.
    pub fn url(&self) -> (r: String)
        ensures
            r@ == model_url(*self),
    {
        let mut s = String::from_str("https://huggingface.co/ggerganov/whisper.cpp/resolve/main/");
        let f = self.filename();
        s.append(f.as_str());
        s
    }

    pub fn expected_size_bytes(&self) -> (r: u64)
        ensures
            r == expected_size(*self),
    {
        match self {
            WhisperModel::TinyEn => 39 * 1024 * 1024,
            WhisperModel::SmallEn => 466 * 1024 * 1024,
            WhisperModel::MediumEn => 1420 * 1024 * 1024,
        }
    }

    pub fn min_complete_size(&self) -> (r: u64)
        ensures
            r == min_complete_size(*self),
    {
        self.expected_size_bytes() * 9 / 10
    }

    pub fn display_name(&self) -> (r: &'static str)
        ensures
            r@ == model_display_name(*self),
    {
        match self {
            WhisperModel::TinyEn => "Tiny — fastest (39 MB, ~3x faster, lower accuracy)",
            WhisperModel::SmallEn => "Small — balanced (466 MB, default)",
            WhisperModel::MediumEn => "Medium — most accurate (1.4 GB, ~2x slower)",
        }
    }
}

/// Every model's id reads back as that model.
pub proof fn lemma_id_round_trip(m: WhisperModel)
    ensures
        model_of_id(model_id(m)) == Some(m),
{
    reveal_strlit("tiny.en");
    reveal_strlit("tiny_en");
    reveal_strlit("small.en");
    reveal_strlit("small_en");
    reveal_strlit("medium.en");
    reveal_strlit("medium_en");
    match m {
        WhisperModel::TinyEn => {},
        WhisperModel::SmallEn => {
            assert("small.en"@ != "tiny.en"@) by {
                assert("small.en"@[0] != "tiny.en"@[0]);
            }
            assert("small.en"@ != "tiny_en"@) by {
                assert("small.en"@[0] != "tiny_en"@[0]);
            }
        },
        WhisperModel::MediumEn => {
            assert("medium.en"@ != "tiny.en"@) by {
                assert("medium.en"@[0] != "tiny.en"@[0]);
            }
            assert("medium.en"@ != "tiny_en"@) by {
                assert("medium.en"@[0] != "tiny_en"@[0]);
            }
            assert("medium.en"@ != "small.en"@) by {
                assert("medium.en"@[0] != "small.en"@[0]);
            }
            assert("medium.en"@ != "small_en"@) by {
                assert("medium.en"@[0] != "small_en"@[0]);
            }
        },
    }
}

/// The model chosen in the settings, or the default when the stored id is
/// not a known one.
pub fn model_from_setting(raw: &str) -> (r: WhisperModel)
    ensures
        r == match model_of_id(raw@) {
            Some(m) => m,
            None => WhisperModel::SmallEn,
        },
{
    match WhisperModel::from_id(raw) {
        Some(m) => m,
        None => WhisperModel::DEFAULT,
    }
}

/// The folder the models are kept in, inside the app's data folder.
pub fn model_dir(app_data_dir: &str) -> (r: String)
    ensures
        r@ == join(app_data_dir@, "models"@),
{
    join_path(app_data_dir, "models")
}

pub fn model_path(app_data_dir: &str, model: WhisperModel) -> (r: String)
    ensures
        r@ == join(join(app_data_dir@, "models"@), model_filename(model)),
{
    let d = model_dir(app_data_dir);
    let f = model.filename();
    join_path(d.as_str(), f.as_str())
}

/// Whether the model file, of the given length if it exists, is complete.
pub fn is_cached(model: WhisperModel, file_len: Option<u64>) -> (r: bool)
    ensures
        r == match file_len {
            Some(n) => n >= min_complete_size(model),
            None => false,
        },
{
    match file_len {
        Some(n) => n >= model.min_complete_size(),
        None => false,
    }
}

/// The file a download is written to before it is complete.
pub fn partial_path(model_path: &str) -> (r: String)
    requires
        model_path@.len() < isize::MAX,
    ensures
        r@ == with_extension(model_path@, "bin.part"@),
{
    path_with_extension(model_path, "bin.part")
}

/// What to do with a model file that may already be on disk.
#[derive(Clone, Copy, PartialEq, Eq, Structural, Debug)]
pub enum ExistingModel {
    /// Complete: use it.
    Ready,
    /// Too short: delete it and download again.
    Incomplete,
    /// Not there: download it.
    Missing,
}

pub fn existing_model(model: WhisperModel, file_len: Option<u64>) -> (r: ExistingModel)
    ensures
        r == match file_len {
            Some(n) => if n >= min_complete_size(model) {
                ExistingModel::Ready
            } else {
                ExistingModel::Incomplete
            },
            None => ExistingModel::Missing,
        },
{
    match file_len {
        Some(n) => if n >= model.min_complete_size() {
            ExistingModel::Ready
        } else {
            ExistingModel::Incomplete
        },
        None => ExistingModel::Missing,
    }
}

/// How to go on once the server has answered a model download request.
#[derive(Clone, Copy, PartialEq, Eq, Structural, Debug)]
pub struct Transfer {
    /// Bytes already on disk that the body continues.
    pub resume_from: u64,
    /// Bytes expected in all.
    pub total: u64,
    /// Whether the body is appended to the partial file (else the partial
    /// file is created afresh).
    pub append: bool,
}

#[derive(Clone, Copy, Debug)]
pub struct TransferDecision {
    /// The partial file must be deleted: the server ignored the range asked
    /// for.
    pub discard_partial: bool,
    /// The transfer, or the refused HTTP status.
    pub outcome: Result<Transfer, u16>,
}

pub open spec fn http_success(status: u16) -> bool {
    200 <= status <= 299
}

/// Decides, from the bytes already downloaded, the HTTP status and the
/// announced body length, whether the download resumes, restarts, or
/// fails.
pub fn plan_transfer(resume_from: u64, status: u16, content_length: Option<u64>) -> (r:
    TransferDecision)
    requires
        match content_length {
            Some(n) => resume_from + n <= u64::MAX,
            None => true,
        },
    ensures
        r.discard_partial == (status != 206 && resume_from > 0),
        !http_success(status) ==> r.outcome == Err::<Transfer, u16>(status),
        http_success(status) ==> (r.outcome matches Ok(t) && {
            let resume = if r.discard_partial {
                0
            } else {
                resume_from
            };
            &&& t.resume_from == resume
            &&& t.total == resume + match content_length {
                Some(n) => n,
                None => 0,
            }
            &&& t.append == (resume > 0)
        }),
{
    let discard = status != 206 && resume_from > 0;
    let resume = if discard {
        0
    } else {
        resume_from
    };
    if !(200 <= status && status <= 299) {
        return TransferDecision { discard_partial: discard, outcome: Err(status) };
    }
    let body = match content_length {
        Some(n) => n,
        None => 0,
    };
    TransferDecision {
        discard_partial: discard,
        outcome: Ok(Transfer { resume_from: resume, total: resume + body, append: resume > 0 }),
    }
}

/// The `Range` header value asking for the rest of a partial download.
pub open spec fn range_header_of(resume_from: u64) -> Seq<char> {
    "bytes="@ + crate::text::decimal(resume_from as nat) + "-"@
}

pub fn range_header(resume_from: u64) -> (r: String)
    ensures
        r@ == range_header_of(resume_from),
{
    let mut s = String::from_str("bytes=");
    crate::text::push_decimal(&mut s, resume_from);
    s.append("-");
    s
}

/// The size the catalogue gives each model, in MiB: 39 for `tiny.en`, 466
/// for `small.en`, 1420 for `medium.en`.
pub open spec fn catalogue_mib(m: WhisperModel) -> nat {
    match m {
        WhisperModel::TinyEn => 39,
        WhisperModel::SmallEn => 466,
        WhisperModel::MediumEn => 1420,
    }
}

/// Each model is expected to be its catalogue size, so a model file of that
/// size, or longer, counts as complete and is used as it is; a file shorter
/// than nine tenths of it does not.
pub proof fn lemma_expected_size_is_catalogue_size(m: WhisperModel, n: u64)
    ensures
        expected_size(m) == catalogue_mib(m) * 1024 * 1024,
        n >= catalogue_mib(m) * 1024 * 1024 ==> n >= min_complete_size(m),
        n < catalogue_mib(m) * 1024 * 1024 * 9 / 10 ==> n < min_complete_size(m),
{
}

} // verus!
