use vstd::prelude::*;
use vstd::string::StringExecFns;

verus! {

/// The settings of the hardware-accelerated embedding backend: the model it
/// runs and the file that configures it.
#[derive(Debug, Clone)]
pub struct EmbeddingNpuModel {
    pub model_name: String,
    pub config_path: String,
}

/// Whether the hardware backend can run the model of this name.
pub open spec fn supported_npu_model(name: Seq<char>) -> bool {
    name == "BGELargeENV15NPU_Int8"@ || name == "BGELargeENV15NPU_Fp16"@
}

impl EmbeddingNpuModel {
    /// Whether the hardware backend can run the model of this name.
    pub fn is_supported_model(model_name: &String) -> (supported: bool)
        ensures
            supported == supported_npu_model(model_name@),
    {
        let int8 = String::from_str("BGELargeENV15NPU_Int8");
        let fp16 = String::from_str("BGELargeENV15NPU_Fp16");
        *model_name == int8 || *model_name == fp16
    }

    /// The name of the file that configures a model where none is given: the
    /// model's name with `.json` behind it.
    pub fn config_file_name(model_name: &String) -> (file_name: String)
        ensures
            file_name@ == model_name@ + ".json"@,
    {
        model_name.clone().concat(".json")
    }

    /// The settings for a model that the hardware backend can run.
    pub fn new(model_name: String, config_path: String) -> (model: EmbeddingNpuModel)
        requires
            supported_npu_model(model_name@),
        ensures
            model.model_name == model_name,
            model.config_path == config_path,
    {
        EmbeddingNpuModel { model_name, config_path }
    }
}

} // verus!
