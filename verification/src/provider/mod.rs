//! Document parsing providers: their names, their configurations and the
//! decisions each of them takes on what its service answers.
pub mod archive;
pub mod mineru;
pub mod paddleocr;
pub mod traits;
pub mod zhipu;

use crate::text::{
    all_ascii, append_chars, ascii_lower, chars_eq, chars_of, has_prefix, lowercase,
    lowercase_chars, slice_chars, starts_with_chars, string_of,
};
use vstd::prelude::*;

verus! {

/// The model variants of the Zhipu parser.
#[derive(Debug, Clone, Copy, PartialEq, Eq, Structural)]
pub enum ZhipuModel {
    Lite,
    Expert,
    Prime,
}

/// The name of a Zhipu model, as it appears on the command line.
pub open spec fn zhipu_model_name(m: ZhipuModel) -> Seq<char> {
    match m {
        ZhipuModel::Lite => "lite"@,
        ZhipuModel::Expert => "expert"@,
        ZhipuModel::Prime => "prime"@,
    }
}

/// The Zhipu model named by an already lowercased name.
pub open spec fn zhipu_model_from_lower(l: Seq<char>) -> Option<ZhipuModel> {
    if l == "lite"@ {
        Some(ZhipuModel::Lite)
    } else if l == "expert"@ {
        Some(ZhipuModel::Expert)
    } else if l == "prime"@ {
        Some(ZhipuModel::Prime)
    } else {
        None
    }
}

/// The Zhipu model a name selects, case-insensitively.
pub open spec fn zhipu_model_from_name(s: Seq<char>) -> Option<ZhipuModel> {
    zhipu_model_from_lower(lowercase(s))
}

fn zhipu_model_from_lower_exec(l: &Vec<char>) -> (r: Option<ZhipuModel>)
    ensures
        r == zhipu_model_from_lower(l@),
{
    if chars_eq(l, &chars_of("lite")) {
        Some(ZhipuModel::Lite)
    } else if chars_eq(l, &chars_of("expert")) {
        Some(ZhipuModel::Expert)
    } else if chars_eq(l, &chars_of("prime")) {
        Some(ZhipuModel::Prime)
    } else {
        None
    }
}

impl ZhipuModel {
    /// The model's name.
    pub fn as_str(&self) -> (r: &'static str)
        ensures
            r@ == zhipu_model_name(*self),
    {
        match self {
            ZhipuModel::Lite => "lite",
            ZhipuModel::Expert => "expert",
            ZhipuModel::Prime => "prime",
        }
    }

    /// The model a name selects, ignoring case; `None` for any other name.
    pub fn from_str(s: &str) -> (r: Option<ZhipuModel>)
        ensures
            r == zhipu_model_from_name(s@),
            all_ascii(s@) ==> r == zhipu_model_from_lower(ascii_lower(s@)),
    {
        let l = lowercase_chars(&chars_of(s));
        zhipu_model_from_lower_exec(&l)
    }
}

/// The providers that can parse a document.
#[derive(Debug, Clone, Copy, PartialEq, Eq, Structural)]
pub enum ProviderType {
    Zhipu(ZhipuModel),
    PaddleOcr,
    MinerU(MinerUModel),
}

/// The provider's name: `paddleocr`, `zhipu/<model>` or `mineru/<variant>`.
pub open spec fn provider_name(p: ProviderType) -> Seq<char> {
    match p {
        ProviderType::Zhipu(m) => "zhipu/"@ + zhipu_model_name(m),
        ProviderType::PaddleOcr => "paddleocr"@,
        ProviderType::MinerU(m) => "mineru/"@ + mineru_model_name(m),
    }
}

/// The MinerU variant a lowercase name selects.
pub open spec fn mineru_model_from_lower(l: Seq<char>) -> Option<MinerUModel> {
    if l == "vlm"@ {
        Some(MinerUModel::Vlm)
    } else if l == "pipeline"@ {
        Some(MinerUModel::Pipeline)
    } else if l == "agent"@ {
        Some(MinerUModel::Agent)
    } else {
        None
    }
}

fn mineru_model_from_lower_exec(l: &Vec<char>) -> (r: Option<MinerUModel>)
    ensures
        r == mineru_model_from_lower(l@),
{
    if chars_eq(l, &chars_of("vlm")) {
        Some(MinerUModel::Vlm)
    } else if chars_eq(l, &chars_of("pipeline")) {
        Some(MinerUModel::Pipeline)
    } else if chars_eq(l, &chars_of("agent")) {
        Some(MinerUModel::Agent)
    } else {
        None
    }
}

/// The provider an already lowercased name selects: `paddleocr`, `zhipu`
/// (the prime model), `zhipu/` followed by a model name, which is itself
/// read case-insensitively, `mineru` (the visual language model), or
/// `mineru/` followed by `vlm`, `pipeline` or `agent`.
pub open spec fn provider_from_lower(l: Seq<char>) -> Option<ProviderType> {
    if l == "paddleocr"@ {
        Some(ProviderType::PaddleOcr)
    } else if has_prefix(l, "zhipu/"@) {
        match zhipu_model_from_name(l.skip(6)) {
            Some(m) => Some(ProviderType::Zhipu(m)),
            None => None,
        }
    } else if l == "zhipu"@ {
        Some(ProviderType::Zhipu(ZhipuModel::Prime))
    } else if has_prefix(l, "mineru/"@) {
        match mineru_model_from_lower(l.skip(7)) {
            Some(m) => Some(ProviderType::MinerU(m)),
            None => None,
        }
    } else if l == "mineru"@ {
        Some(ProviderType::MinerU(MinerUModel::Vlm))
    } else {
        None
    }
}

/// `provider_from_lower` for ASCII text, where lowercasing is the ASCII
/// mapping.
pub open spec fn provider_from_ascii(l: Seq<char>) -> Option<ProviderType> {
    if l == "paddleocr"@ {
        Some(ProviderType::PaddleOcr)
    } else if has_prefix(l, "zhipu/"@) {
        match zhipu_model_from_lower(ascii_lower(l.skip(6))) {
            Some(m) => Some(ProviderType::Zhipu(m)),
            None => None,
        }
    } else if l == "zhipu"@ {
        Some(ProviderType::Zhipu(ZhipuModel::Prime))
    } else if has_prefix(l, "mineru/"@) {
        match mineru_model_from_lower(l.skip(7)) {
            Some(m) => Some(ProviderType::MinerU(m)),
            None => None,
        }
    } else if l == "mineru"@ {
        Some(ProviderType::MinerU(MinerUModel::Vlm))
    } else {
        None
    }
}

/// The provider a name selects, ignoring case.
pub open spec fn provider_from_name(s: Seq<char>) -> Option<ProviderType> {
    provider_from_lower(lowercase(s))
}

impl ProviderType {
    /// The provider's name.
    pub fn as_str(&self) -> (r: String)
        ensures
            r@ == provider_name(*self),
    {
        match self {
            ProviderType::Zhipu(model) => {
                let mut v = chars_of("zhipu/");
                append_chars(&mut v, &chars_of(model.as_str()));
                string_of(&v)
            },
            ProviderType::PaddleOcr => string_of(&chars_of("paddleocr")),
            ProviderType::MinerU(model) => {
                let mut v = chars_of("mineru/");
                append_chars(&mut v, &chars_of(model.as_str()));
                string_of(&v)
            },
        }
    }

    /// The provider a name selects, ignoring case; `None` for an unknown name.
    pub fn from_str(s: &str) -> (r: Option<ProviderType>)
        ensures
            r == provider_from_name(s@),
            all_ascii(s@) ==> r == provider_from_ascii(ascii_lower(s@)),
            all_ascii(lowercase(s@)) ==> r == provider_from_ascii(lowercase(s@)),
    {
        let l = lowercase_chars(&chars_of(s));
        if chars_eq(&l, &chars_of("paddleocr")) {
            return Some(ProviderType::PaddleOcr);
        }
        let prefix = chars_of("zhipu/");
        proof {
            reveal_strlit("zhipu/");
        }
        if starts_with_chars(&l, &prefix) {
            let rest = slice_chars(&l, 6, l.len());
            assert(rest@ == l@.skip(6));
            let rest_str = string_of(&rest);
            assert(all_ascii(s@) ==> all_ascii(rest@));
            assert(all_ascii(l@) ==> all_ascii(rest@));
            match ZhipuModel::from_str(rest_str.as_str()) {
                Some(m) => Some(ProviderType::Zhipu(m)),
                None => None,
            }
        } else if chars_eq(&l, &chars_of("zhipu")) {
            Some(ProviderType::Zhipu(ZhipuModel::Prime))
        } else {
            let mprefix = chars_of("mineru/");
            proof {
                reveal_strlit("mineru/");
            }
            if starts_with_chars(&l, &mprefix) {
                let rest = slice_chars(&l, 7, l.len());
                assert(rest@ == l@.skip(7));
                match mineru_model_from_lower_exec(&rest) {
                    Some(m) => Some(ProviderType::MinerU(m)),
                    None => None,
                }
            } else if chars_eq(&l, &chars_of("mineru")) {
                Some(ProviderType::MinerU(MinerUModel::Vlm))
            } else {
                None
            }
        }
    }

    /// The provider used when none is named: PaddleOCR.
    pub fn default() -> (r: ProviderType)
        ensures
            r == ProviderType::PaddleOcr,
    {
        ProviderType::PaddleOcr
    }
}

/// Names that the library prints for providers are plain lowercase ASCII, and
/// reading a provider's name back gives the same provider.
pub proof fn lemma_provider_name_roundtrip(p: ProviderType)
    ensures
        all_ascii(provider_name(p)),
        ascii_lower(provider_name(p)) == provider_name(p),
        provider_from_ascii(provider_name(p)) == Some(p),
{
    reveal_strlit("zhipu/");
    reveal_strlit("paddleocr");
    reveal_strlit("zhipu");
    reveal_strlit("lite");
    reveal_strlit("expert");
    reveal_strlit("prime");
    reveal_strlit("mineru/");
    reveal_strlit("vlm");
    reveal_strlit("pipeline");
    reveal_strlit("agent");
    let n = provider_name(p);
    assert(ascii_lower(n) =~= n);
    match p {
        ProviderType::Zhipu(m) => {
            assert(n.subrange(0, 6) =~= "zhipu/"@);
            assert(n.skip(6) =~= zhipu_model_name(m));
            assert(n != "paddleocr"@);
            lemma_zhipu_name_roundtrip(m);
        },
        ProviderType::PaddleOcr => {},
        ProviderType::MinerU(m) => {
            assert(n.subrange(0, 7) =~= "mineru/"@);
            assert(n.skip(7) =~= mineru_model_name(m));
            assert(n != "paddleocr"@);
            assert(!has_prefix(n, "zhipu/"@)) by {
                assert(n[0] != "zhipu/"@[0]);
            }
            assert(n != "zhipu"@) by {
                assert(n[0] != "zhipu"@[0]);
            }
        },
    }
}

/// A Zhipu model's name is lowercase ASCII and selects that model.
pub proof fn lemma_zhipu_name_roundtrip(m: ZhipuModel)
    ensures
        all_ascii(zhipu_model_name(m)),
        ascii_lower(zhipu_model_name(m)) == zhipu_model_name(m),
        zhipu_model_from_lower(zhipu_model_name(m)) == Some(m),
{
    reveal_strlit("lite");
    reveal_strlit("expert");
    reveal_strlit("prime");
    assert(ascii_lower(zhipu_model_name(m)) =~= zhipu_model_name(m));
}

/// The variants of the MinerU service.
#[derive(Debug, Clone, Copy, PartialEq, Eq, Structural)]
pub enum MinerUModel {
    /// Precision API with the visual language model (the default).
    Vlm,
    /// Precision API with the traditional pipeline.
    Pipeline,
    /// The lightweight agent API, which needs no key.
    Agent,
}

/// The name of a MinerU variant.
pub open spec fn mineru_model_name(m: MinerUModel) -> Seq<char> {
    match m {
        MinerUModel::Vlm => "vlm"@,
        MinerUModel::Pipeline => "pipeline"@,
        MinerUModel::Agent => "agent"@,
    }
}

impl MinerUModel {
    /// The variant's name.
    pub fn as_str(&self) -> (r: &'static str)
        ensures
            r@ == mineru_model_name(*self),
    {
        match self {
            MinerUModel::Vlm => "vlm",
            MinerUModel::Pipeline => "pipeline",
            MinerUModel::Agent => "agent",
        }
    }

    /// The variant used when none is named: the visual language model.
    pub fn default() -> (r: MinerUModel)
        ensures
            r == MinerUModel::Vlm,
    {
        MinerUModel::Vlm
    }
}

} // verus!
