//! The registry of downloadable speech and diarization models.

use vstd::prelude::*;

use crate::strfmt::{push_dec, spec_dec, str_eq, string_from_chars};

verus! {

/// The model categories.
#[derive(Debug, Clone, Copy, PartialEq, Eq, Structural)]
pub enum ModelType {
    /// A speech-recognition model.
    Whisper,
    /// A speaker-segmentation model.
    PyannoteSegmentation,
    /// A speaker-embedding model.
    PyannoteEmbedding,
}

impl ModelType {
    /// The cache subdirectory of this category.
    pub open spec fn spec_subdirectory(self) -> Seq<char> {
        match self {
            ModelType::Whisper => "whisper"@,
            ModelType::PyannoteSegmentation => "pyannote"@,
            ModelType::PyannoteEmbedding => "pyannote"@,
        }
    }

    /// Cache subdirectory of this category.
    pub fn subdirectory(&self) -> (s: &'static str)
        ensures
            s@ == self.spec_subdirectory(),
    {
        match self {
            ModelType::Whisper => "whisper",
            ModelType::PyannoteSegmentation => "pyannote",
            ModelType::PyannoteEmbedding => "pyannote",
        }
    }
}

/// Mathematical image of a [`ModelInfo`].
pub ghost struct ModelInfoModel {
    /// Model identifier.
    pub id: Seq<char>,
    /// Display name.
    pub name: Seq<char>,
    /// Model category.
    pub model_type: ModelType,
    /// File name.
    pub filename: Seq<char>,
    /// Download address.
    pub url: Seq<char>,
    /// File size in bytes.
    pub size_bytes: int,
    /// Expected digest, empty when unknown.
    pub sha256: Seq<char>,
    /// Description.
    pub description: Seq<char>,
}

/// One downloadable model.
#[derive(Debug, Clone)]
pub struct ModelInfo {
    /// Model identifier.
    pub id: String,
    /// Display name.
    pub name: String,
    /// Model category.
    pub model_type: ModelType,
    /// File name.
    pub filename: String,
    /// Download address.
    pub url: String,
    /// File size in bytes.
    pub size_bytes: u64,
    /// Expected digest, empty when unknown.
    pub sha256: String,
    /// Description.
    pub description: String,
}

impl View for ModelInfo {
    type V = ModelInfoModel;

    open spec fn view(&self) -> ModelInfoModel {
        ModelInfoModel {
            id: self.id@,
            name: self.name@,
            model_type: self.model_type,
            filename: self.filename@,
            url: self.url@,
            size_bytes: self.size_bytes as int,
            sha256: self.sha256@,
            description: self.description@,
        }
    }
}

/// The models of a registry list.
pub open spec fn model_infos(s: Seq<ModelInfo>) -> Seq<ModelInfoModel> {
    s.map_values(|m: ModelInfo| m@)
}

/// One kibibyte.
pub const SIZE_KB: u64 = 1024;

/// One mebibyte.
pub const SIZE_MB: u64 = 1048576;

/// One gibibyte.
pub const SIZE_GB: u64 = 1073741824;

/// `n / d` rounded to the nearest whole number; an exact half rounds to
/// the even neighbour.
pub open spec fn round_half_even(n: nat, d: nat) -> nat {
    let q = n / d;
    let r = n % d;
    if 2 * r > d {
        q + 1
    } else if 2 * r < d {
        q
    } else if q % 2 == 0 {
        q
    } else {
        q + 1
    }
}

/// A byte count as a human-readable size: gibibytes with one decimal,
/// whole mebibytes or kibibytes, or plain bytes.  Rounding is to nearest,
/// an exact half to the even neighbour.
pub open spec fn spec_size_string(size: nat) -> Seq<char> {
    if size >= SIZE_GB {
        let tenths = round_half_even(size * 10, SIZE_GB as nat);
        spec_dec(tenths / 10) + seq!['.'] + spec_dec(tenths % 10) + " GB"@
    } else if size >= SIZE_MB {
        spec_dec(round_half_even(size as nat, SIZE_MB as nat)) + " MB"@
    } else if size >= SIZE_KB {
        spec_dec(round_half_even(size as nat, SIZE_KB as nat)) + " KB"@
    } else {
        spec_dec(size) + " bytes"@
    }
}

/// [`round_half_even`], computed on machine words.
fn div_half_even(n: u128, d: u64) -> (r: u64)
    requires
        1 <= d,
        n / (d as u128) < 0xffff_ffff_ffff_ffff,
    ensures
        r == round_half_even(n as nat, d as nat),
{
    let q: u128 = n / d as u128;
    let rem: u128 = n % d as u128;
    let up: bool = if 2 * rem > d as u128 {
        true
    } else if 2 * rem < d as u128 {
        false
    } else {
        q % 2 == 1
    };
    if up {
        (q + 1) as u64
    } else {
        q as u64
    }
}

impl ModelInfo {
    /// This model's size as a human-readable string.
    pub fn size_string(&self) -> (r: String)
        ensures
            r@ == spec_size_string(self.size_bytes as nat),
    {
        let mut out: Vec<char> = Vec::new();
        if self.size_bytes >= SIZE_GB {
            let tenths: u64 = div_half_even(self.size_bytes as u128 * 10, SIZE_GB);
            push_dec(&mut out, tenths / 10);
            out.push('.');
            push_dec(&mut out, tenths % 10);
            crate::strfmt::push_str_chars(&mut out, " GB");
            proof {
                assert(out@ =~= spec_size_string(self.size_bytes as nat));
            }
        } else if self.size_bytes >= SIZE_MB {
            let mb: u64 = div_half_even(self.size_bytes as u128, SIZE_MB);
            push_dec(&mut out, mb);
            crate::strfmt::push_str_chars(&mut out, " MB");
            proof {
                assert(out@ =~= spec_size_string(self.size_bytes as nat));
            }
        } else if self.size_bytes >= SIZE_KB {
            let kb: u64 = div_half_even(self.size_bytes as u128, SIZE_KB);
            push_dec(&mut out, kb);
            crate::strfmt::push_str_chars(&mut out, " KB");
            proof {
                assert(out@ =~= spec_size_string(self.size_bytes as nat));
            }
        } else {
            push_dec(&mut out, self.size_bytes);
            crate::strfmt::push_str_chars(&mut out, " bytes");
            proof {
                assert(out@ =~= spec_size_string(self.size_bytes as nat));
            }
        }
        string_from_chars(&out)
    }

    /// An exact copy of this entry.
    pub fn duplicate(&self) -> (r: ModelInfo)
        ensures
            r@ == self@,
    {
        ModelInfo {
            id: self.id.clone(),
            name: self.name.clone(),
            model_type: self.model_type,
            filename: self.filename.clone(),
            url: self.url.clone(),
            size_bytes: self.size_bytes,
            sha256: self.sha256.clone(),
            description: self.description.clone(),
        }
    }
}

/// The speech-model registry rows.
pub open spec fn spec_whisper_models() -> Seq<ModelInfoModel> {
    seq![
        ModelInfoModel {
            id: "whisper-tiny"@,
            name: "Whisper Tiny"@,
            model_type: ModelType::Whisper,
            filename: "ggml-tiny.bin"@,
            url: "https://huggingface.co/ggerganov/whisper.cpp/resolve/main/ggml-tiny.bin"@,
            size_bytes: 75_000_000,
            sha256: ""@,
            description: "Fastest, lowest accuracy (~75MB)"@,
        },
        ModelInfoModel {
            id: "whisper-base"@,
            name: "Whisper Base"@,
            model_type: ModelType::Whisper,
            filename: "ggml-base.bin"@,
            url: "https://huggingface.co/ggerganov/whisper.cpp/resolve/main/ggml-base.bin"@,
            size_bytes: 142_000_000,
            sha256: ""@,
            description: "Fast, good accuracy (~140MB)"@,
        },
        ModelInfoModel {
            id: "whisper-small"@,
            name: "Whisper Small"@,
            model_type: ModelType::Whisper,
            filename: "ggml-small.bin"@,
            url: "https://huggingface.co/ggerganov/whisper.cpp/resolve/main/ggml-small.bin"@,
            size_bytes: 466_000_000,
            sha256: ""@,
            description: "Balanced speed/accuracy (~460MB)"@,
        },
        ModelInfoModel {
            id: "whisper-medium"@,
            name: "Whisper Medium"@,
            model_type: ModelType::Whisper,
            filename: "ggml-medium.bin"@,
            url: "https://huggingface.co/ggerganov/whisper.cpp/resolve/main/ggml-medium.bin"@,
            size_bytes: 1_500_000_000,
            sha256: ""@,
            description: "High accuracy (~1.5GB)"@,
        },
        ModelInfoModel {
            id: "whisper-large-v3"@,
            name: "Whisper Large V3"@,
            model_type: ModelType::Whisper,
            filename: "ggml-large-v3.bin"@,
            url: "https://huggingface.co/ggerganov/whisper.cpp/resolve/main/ggml-large-v3.bin"@,
            size_bytes: 3_000_000_000,
            sha256: ""@,
            description: "Highest accuracy, slowest (~3GB)"@,
        },
    ]
}

/// The diarization-model registry rows.
pub open spec fn spec_diarization_models() -> Seq<ModelInfoModel> {
    seq![
        ModelInfoModel {
            id: "pyannote-segmentation"@,
            name: "Pyannote Segmentation 3.0"@,
            model_type: ModelType::PyannoteSegmentation,
            filename: "segmentation-3.0.onnx"@,
            url: "https://huggingface.co/pyannote/segmentation-3.0/resolve/main/pytorch_model.onnx"@,
            size_bytes: 17_000_000,
            sha256: ""@,
            description: "Voice activity detection (~17MB)"@,
        },
        ModelInfoModel {
            id: "wespeaker-embedding"@,
            name: "WeSpeaker Embedding"@,
            model_type: ModelType::PyannoteEmbedding,
            filename: "wespeaker-voxceleb-resnet34-LM.onnx"@,
            url: "https://huggingface.co/pyannote/wespeaker-voxceleb-resnet34-LM/resolve/main/pytorch_model.onnx"@,
            size_bytes: 90_000_000,
            sha256: ""@,
            description: "Speaker embedding extraction (~90MB)"@,
        },
    ]
}

/// Every registry row: the speech models, then the diarization models.
pub open spec fn spec_all_models() -> Seq<ModelInfoModel> {
    spec_whisper_models() + spec_diarization_models()
}

/// The speech-model registry.
pub fn whisper_models() -> (out: Vec<ModelInfo>)
    ensures
        model_infos(out@) == spec_whisper_models(),
{
    let mut out: Vec<ModelInfo> = Vec::new();
    out.push(
        ModelInfo {
            id: "whisper-tiny".to_owned(),
            name: "Whisper Tiny".to_owned(),
            model_type: ModelType::Whisper,
            filename: "ggml-tiny.bin".to_owned(),
            url: "https://huggingface.co/ggerganov/whisper.cpp/resolve/main/ggml-tiny.bin".to_owned(),
            size_bytes: 75_000_000,
            sha256: "".to_owned(),
            description: "Fastest, lowest accuracy (~75MB)".to_owned(),
        },
    );
    out.push(
        ModelInfo {
            id: "whisper-base".to_owned(),
            name: "Whisper Base".to_owned(),
            model_type: ModelType::Whisper,
            filename: "ggml-base.bin".to_owned(),
            url: "https://huggingface.co/ggerganov/whisper.cpp/resolve/main/ggml-base.bin".to_owned(),
            size_bytes: 142_000_000,
            sha256: "".to_owned(),
            description: "Fast, good accuracy (~140MB)".to_owned(),
        },
    );
    out.push(
        ModelInfo {
            id: "whisper-small".to_owned(),
            name: "Whisper Small".to_owned(),
            model_type: ModelType::Whisper,
            filename: "ggml-small.bin".to_owned(),
            url: "https://huggingface.co/ggerganov/whisper.cpp/resolve/main/ggml-small.bin".to_owned(),
            size_bytes: 466_000_000,
            sha256: "".to_owned(),
            description: "Balanced speed/accuracy (~460MB)".to_owned(),
        },
    );
    out.push(
        ModelInfo {
            id: "whisper-medium".to_owned(),
            name: "Whisper Medium".to_owned(),
            model_type: ModelType::Whisper,
            filename: "ggml-medium.bin".to_owned(),
            url: "https://huggingface.co/ggerganov/whisper.cpp/resolve/main/ggml-medium.bin".to_owned(),
            size_bytes: 1_500_000_000,
            sha256: "".to_owned(),
            description: "High accuracy (~1.5GB)".to_owned(),
        },
    );
    out.push(
        ModelInfo {
            id: "whisper-large-v3".to_owned(),
            name: "Whisper Large V3".to_owned(),
            model_type: ModelType::Whisper,
            filename: "ggml-large-v3.bin".to_owned(),
            url: "https://huggingface.co/ggerganov/whisper.cpp/resolve/main/ggml-large-v3.bin".to_owned(),
            size_bytes: 3_000_000_000,
            sha256: "".to_owned(),
            description: "Highest accuracy, slowest (~3GB)".to_owned(),
        },
    );
    proof {
        assert(model_infos(out@) =~= spec_whisper_models());
    }
    out
}

/// The diarization-model registry.
pub fn diarization_models() -> (out: Vec<ModelInfo>)
    ensures
        model_infos(out@) == spec_diarization_models(),
{
    let mut out: Vec<ModelInfo> = Vec::new();
    out.push(
        ModelInfo {
            id: "pyannote-segmentation".to_owned(),
            name: "Pyannote Segmentation 3.0".to_owned(),
            model_type: ModelType::PyannoteSegmentation,
            filename: "segmentation-3.0.onnx".to_owned(),
            url: "https://huggingface.co/pyannote/segmentation-3.0/resolve/main/pytorch_model.onnx".to_owned(),
            size_bytes: 17_000_000,
            sha256: "".to_owned(),
            description: "Voice activity detection (~17MB)".to_owned(),
        },
    );
    out.push(
        ModelInfo {
            id: "wespeaker-embedding".to_owned(),
            name: "WeSpeaker Embedding".to_owned(),
            model_type: ModelType::PyannoteEmbedding,
            filename: "wespeaker-voxceleb-resnet34-LM.onnx".to_owned(),
            url: "https://huggingface.co/pyannote/wespeaker-voxceleb-resnet34-LM/resolve/main/pytorch_model.onnx".to_owned(),
            size_bytes: 90_000_000,
            sha256: "".to_owned(),
            description: "Speaker embedding extraction (~90MB)".to_owned(),
        },
    );
    proof {
        assert(model_infos(out@) =~= spec_diarization_models());
    }
    out
}

/// Every registry entry.
pub fn get_all_models() -> (out: Vec<ModelInfo>)
    ensures
        model_infos(out@) == spec_all_models(),
{
    let mut out: Vec<ModelInfo> = whisper_models();
    let mut more: Vec<ModelInfo> = diarization_models();
    out.append(&mut more);
    proof {
        assert(model_infos(out@) =~= spec_all_models());
    }
    out
}


/// The on-disk path of a model under a cache directory: the directory,
/// the category's subdirectory, and the model's file name.
pub open spec fn spec_model_path(cache_dir: Seq<char>, m: ModelInfoModel) -> Seq<char> {
    cache_dir + "/"@ + m.model_type.spec_subdirectory() + "/"@ + m.filename
}

/// Where a model is stored under a cache directory.
pub fn model_path(cache_dir: &str, model: &ModelInfo) -> (r: String)
    ensures
        r@ == spec_model_path(cache_dir@, model@),
{
    let mut out: Vec<char> = Vec::new();
    crate::strfmt::push_str_chars(&mut out, cache_dir);
    crate::strfmt::push_str_chars(&mut out, "/");
    crate::strfmt::push_str_chars(&mut out, model.model_type.subdirectory());
    crate::strfmt::push_str_chars(&mut out, "/");
    crate::strfmt::push_str_chars(&mut out, model.filename.as_str());
    string_from_chars(&out)
}

/// The first registry row with the given identifier, or `-1`.
pub open spec fn model_index_of(t: Seq<ModelInfoModel>, id: Seq<char>) -> int
    decreases t.len(),
{
    if t.len() == 0 {
        -1
    } else if t.first().id == id {
        0
    } else {
        let r = model_index_of(t.drop_first(), id);
        if r == -1 {
            -1
        } else {
            r + 1
        }
    }
}

proof fn lemma_model_index_hit(t: Seq<ModelInfoModel>, id: Seq<char>, i: int)
    requires
        0 <= i < t.len(),
        forall|k: int| 0 <= k < i ==> (#[trigger] t[k]).id != id,
        t[i].id == id,
    ensures
        model_index_of(t, id) == i,
    decreases i,
{
    if i > 0 {
        assert(t.first().id != id);
        assert(forall|k: int| 0 <= k < i - 1 ==> (#[trigger] t.drop_first()[k]).id != id);
        assert(t.drop_first()[i - 1].id == id);
        lemma_model_index_hit(t.drop_first(), id, i - 1);
    }
}

proof fn lemma_model_index_miss(t: Seq<ModelInfoModel>, id: Seq<char>)
    requires
        forall|k: int| 0 <= k < t.len() ==> (#[trigger] t[k]).id != id,
    ensures
        model_index_of(t, id) == -1,
    decreases t.len(),
{
    if t.len() > 0 {
        assert(forall|k: int|
            0 <= k < t.drop_first().len() ==> (#[trigger] t.drop_first()[k]).id != id);
        lemma_model_index_miss(t.drop_first(), id);
    }
}

/// The registry entry with the given identifier, if any.
pub fn get_model(id: &str) -> (r: Option<ModelInfo>)
    ensures
        r is Some <==> model_index_of(spec_all_models(), id@) != -1,
        r matches Some(m) ==> m@ == spec_all_models()[model_index_of(spec_all_models(), id@)],
{
    let all: Vec<ModelInfo> = get_all_models();
    let mut i: usize = 0;
    while i < all.len()
        invariant
            0 <= i <= all@.len(),
            model_infos(all@) == spec_all_models(),
            forall|k: int| 0 <= k < i ==> (#[trigger] spec_all_models()[k]).id != id@,
        decreases all@.len() - i,
    {
        let hit: bool = str_eq(all[i].id.as_str(), id);
        if hit {
            proof {
                assert(spec_all_models()[i as int].id == id@);
                lemma_model_index_hit(spec_all_models(), id@, i as int);
            }
            return Some(all[i].duplicate());
        }
        i = i + 1;
    }
    proof {
        lemma_model_index_miss(spec_all_models(), id@);
    }
    None
}

/// The registry rows of one category, in registry order.
pub open spec fn spec_models_of_type(t: Seq<ModelInfoModel>, mt: ModelType) -> Seq<ModelInfoModel>
    decreases t.len(),
{
    if t.len() == 0 {
        Seq::empty()
    } else if t.last().model_type == mt {
        spec_models_of_type(t.drop_last(), mt).push(t.last())
    } else {
        spec_models_of_type(t.drop_last(), mt)
    }
}

/// Every registry entry of one category.
pub fn get_models_by_type(model_type: ModelType) -> (out: Vec<ModelInfo>)
    ensures
        model_infos(out@) == spec_models_of_type(spec_all_models(), model_type),
{
    let all: Vec<ModelInfo> = get_all_models();
    let ghost table = spec_all_models();
    let mut out: Vec<ModelInfo> = Vec::new();
    let mut i: usize = 0;
    proof {
        assert(table.take(0) =~= Seq::<ModelInfoModel>::empty());
        assert(model_infos(out@) =~= Seq::<ModelInfoModel>::empty());
    }
    while i < all.len()
        invariant
            0 <= i <= all@.len(),
            model_infos(all@) == table,
            table == spec_all_models(),
            model_infos(out@) == spec_models_of_type(table.take(i as int), model_type),
        decreases all@.len() - i,
    {
        proof {
            assert(table.take(i + 1).drop_last() =~= table.take(i as int));
            assert(table.take(i + 1).last() == table[i as int]);
            assert(all@[i as int]@ == table[i as int]);
        }
        if all[i].model_type == model_type {
            let dup: ModelInfo = all[i].duplicate();
            let ghost before = out@;
            out.push(dup);
            proof {
                assert(model_infos(before.push(dup)) =~= model_infos(before).push(dup@));
            }
        }
        i = i + 1;
    }
    proof {
        assert(table.take(all@.len() as int) =~= table);
    }
    out
}

} // verus!
