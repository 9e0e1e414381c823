//! Outside providers and whether each has a key. Keys themselves never appear here.
use vstd::prelude::*;

verus! {

#[derive(Debug, Clone, Copy, PartialEq, Eq, Hash, Structural)]
pub enum ProviderId {
    /// Research brain (LLM).
    Deepseek,
    /// Web search.
    ZhipuSearch,
    /// Pictures: MiniMax image-01 (cheap, text-to-image only).
    Minimax,
    /// Pictures and editing: Qwen image.
    QwenImage,
}

impl ProviderId {
    pub const ALL: [ProviderId; 4] = [ProviderId::Deepseek, ProviderId::ZhipuSearch, ProviderId::Minimax, ProviderId::QwenImage];

    pub open spec fn name(self) -> Seq<char> {
        match self {
            ProviderId::Deepseek => "deepseek"@,
            ProviderId::ZhipuSearch => "zhipu_search"@,
            ProviderId::Minimax => "minimax"@,
            ProviderId::QwenImage => "qwen_image"@,
        }
    }

    pub open spec fn console(self) -> Seq<char> {
        match self {
            ProviderId::Deepseek => "https://platform.deepseek.com/api_keys"@,
            ProviderId::ZhipuSearch => "https://bigmodel.cn/usercenter/proj-mgmt/apikeys"@,
            ProviderId::Minimax => "https://platform.minimax.cn/user-center/basic-information/interface-key"@,
            ProviderId::QwenImage => "https://bailian.console.aliyun.com/?tab=model#/api-key"@,
        }
    }

    pub fn as_str(self) -> (r: &'static str)
        ensures
            r@ == self.name(),
    {
        match self {
            ProviderId::Deepseek => "deepseek",
            ProviderId::ZhipuSearch => "zhipu_search",
            ProviderId::Minimax => "minimax",
            ProviderId::QwenImage => "qwen_image",
        }
    }

    /// Where the user gets a key (the link on the settings page).
    pub fn console_url(self) -> (r: &'static str)
        ensures
            r@ == self.console(),
    {
        match self {
            ProviderId::Deepseek => "https://platform.deepseek.com/api_keys",
            ProviderId::ZhipuSearch => "https://bigmodel.cn/usercenter/proj-mgmt/apikeys",
            ProviderId::Minimax => "https://platform.minimax.cn/user-center/basic-information/interface-key",
            ProviderId::QwenImage => "https://bailian.console.aliyun.com/?tab=model#/api-key",
        }
    }
}

/// Every key is fetched over HTTPS.
pub proof fn console_urls_are_https(p: ProviderId)
    ensures
        crate::text::starts_with(p.console(), "https://"@),
{
    reveal_strlit("https://");
    reveal_strlit("https://platform.deepseek.com/api_keys");
    reveal_strlit("https://bigmodel.cn/usercenter/proj-mgmt/apikeys");
    reveal_strlit("https://platform.minimax.cn/user-center/basic-information/interface-key");
    reveal_strlit("https://bailian.console.aliyun.com/?tab=model#/api-key");
    assert(p.console().subrange(0, 8) =~= "https://"@);
}

/// The front end only learns whether a key is set, never the key.
#[derive(Debug, Clone, Copy, PartialEq, Eq)]
pub struct ProviderStatus {
    pub id: ProviderId,
    pub has_key: bool,
}

} // verus!
