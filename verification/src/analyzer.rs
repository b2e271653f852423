//! The analysis service around one resume: content-addressed storage of the
//! uploaded bytes (deduplicated by SHA-256 digest), and construction of the
//! chat request that asks the model to evaluate the stored file against a
//! job profile. The outbound HTTP call itself is the caller's concern; its
//! reply is judged by the gateway functions.

use sha2::Digest;

use vstd::prelude::*;
use vstd::string::StrSliceExecFns;
use vstd::string::StringExecFns;

use crate::config::{LlmConfig, ServerConfig};
use crate::error::AppError;
use crate::llm::{build_chat_request, ChatRequest, TEMPERATURE_TENTHS};
use crate::logger::Logger;
use crate::prompts::{vision_prompt_view, PromptManager, DEFAULT_JOB_KEY, SYSTEM_PROMPT};
use crate::text::{
    chars_of, contains_string, rskip_char, rskip_char_exec, seq_contains, strs_view,
};

verus! {

/// What SHA-256 returns for given bytes: a function of the bytes alone.
pub uninterp spec fn sha256_of(data: Seq<u8>) -> Seq<u8>;

/// Relies on sha2's `Sha256` (via the `Digest` trait): the digest depends on
/// the hashed bytes alone, and is 32 bytes long.
#[verifier::external_body]
fn sha256(data: &[u8]) -> (r: Vec<u8>)
    ensures
        r@ == sha256_of(data@),
        r@.len() == 32,
{
    let mut hasher = sha2::Sha256::new();
    hasher.update(data);
    hasher.finalize().as_slice().to_vec()
}

/// What `str::to_lowercase` returns: a function of the characters alone.
pub uninterp spec fn lower_of(s: Seq<char>) -> Seq<char>;

/// Relies on `str::to_lowercase` of std: the result depends on the
/// characters alone, and an empty string stays empty.
#[verifier::external_body]
fn lowercase(s: &str) -> (r: String)
    ensures
        r@ == lower_of(s@),
        s@.len() == 0 ==> r@.len() == 0,
{
    s.to_lowercase()
}

/// The lowercase hex character for a value below sixteen.
pub open spec fn hex_digit(d: int) -> char {
    if d == 0 { '0' }
    else if d == 1 { '1' }
    else if d == 2 { '2' }
    else if d == 3 { '3' }
    else if d == 4 { '4' }
    else if d == 5 { '5' }
    else if d == 6 { '6' }
    else if d == 7 { '7' }
    else if d == 8 { '8' }
    else if d == 9 { '9' }
    else if d == 10 { 'a' }
    else if d == 11 { 'b' }
    else if d == 12 { 'c' }
    else if d == 13 { 'd' }
    else if d == 14 { 'e' }
    else { 'f' }
}

/// Bytes written as lowercase hex, two characters per byte.
pub open spec fn hex_view(b: Seq<u8>) -> Seq<char>
    decreases b.len(),
{
    if b.len() == 0 {
        Seq::empty()
    } else {
        hex_view(b.drop_last()) + seq![
            hex_digit(b.last() as int / 16),
            hex_digit(b.last() as int % 16),
        ]
    }
}

/// The content hash of uploaded bytes: their SHA-256 digest in lowercase hex.
pub open spec fn sha256_hex_of(data: Seq<u8>) -> Seq<char> {
    hex_view(sha256_of(data))
}

/// The one-character string for a hex digit value.
fn hex_str(d: u8) -> (r: &'static str)
    requires
        d < 16,
    ensures
        r@ == seq![hex_digit(d as int)],
{
    proof {
        reveal_strlit("a");
        reveal_strlit("b");
        reveal_strlit("c");
        reveal_strlit("d");
        reveal_strlit("e");
        reveal_strlit("f");
        assert("a"@ =~= seq!['a']);
        assert("b"@ =~= seq!['b']);
        assert("c"@ =~= seq!['c']);
        assert("d"@ =~= seq!['d']);
        assert("e"@ =~= seq!['e']);
        assert("f"@ =~= seq!['f']);
    }
    if d < 10 {
        crate::text::digit_str(d as u64)
    } else if d == 10 { "a" }
    else if d == 11 { "b" }
    else if d == 12 { "c" }
    else if d == 13 { "d" }
    else if d == 14 { "e" }
    else { "f" }
}

/// Bytes rendered as lowercase hex; exactly `hex_view`.
pub fn to_hex(b: &Vec<u8>) -> (r: String)
    ensures
        r@ == hex_view(b@),
{
    let mut s = String::new();
    let mut i: usize = 0;
    proof {
        assert(s@ =~= hex_view(b@.subrange(0, 0)));
    }
    while i < b.len()
        invariant
            i <= b@.len(),
            s@ == hex_view(b@.subrange(0, i as int)),
        decreases b@.len() - i,
    {
        let byte = b[i];
        s.append(hex_str(byte / 16));
        s.append(hex_str(byte % 16));
        i += 1;
        proof {
            let pre = b@.subrange(0, i as int);
            assert(pre.drop_last() =~= b@.subrange(0, i - 1));
            assert(s@ =~= hex_view(pre));
        }
    }
    proof {
        assert(b@.subrange(0, b@.len() as int) =~= b@);
    }
    s
}

/// Index of the last `.` of `s` strictly before `j`.
pub open spec fn rfind_dot(s: Seq<char>, j: int) -> Option<int>
    recommends
        0 <= j <= s.len(),
    decreases j,
        when 0 <= j <= s.len()
{
    if j <= 0 {
        None
    } else if s[j - 1] == '.' {
        Some(j - 1)
    } else {
        rfind_dot(s, j - 1)
    }
}

/// The extension a stored file keeps: what follows the last dot of the
/// original name, lowercased — or `pdf` when the name has no usable one.
pub open spec fn ext_of(name: Seq<char>) -> Seq<char> {
    match rfind_dot(name, name.len() as int) {
        Some(p) => if p > 0 {
            lower_of(name.subrange(p + 1, name.len() as int))
        } else {
            "pdf"@
        },
        None => "pdf"@,
    }
}

/// The name uploaded bytes are stored under: `<content hash>.<extension>`.
pub open spec fn stored_name_of(data: Seq<u8>, filename: Seq<char>) -> Seq<char> {
    sha256_hex_of(data) + "."@ + ext_of(filename)
}

/// The retrieval URL for a stored name: the public base URL without its
/// trailing slashes, then `/files/`, then the stored name.
pub open spec fn url_of(base: Seq<char>, name: Seq<char>) -> Seq<char> {
    base.subrange(0, rskip_char(base, '/', base.len() as int)) + "/files/"@ + name
}

/// How one store call changes the set of stored names: identical content
/// under the same name is never written twice.
pub open spec fn store_result(stored: Seq<Seq<char>>, data: Seq<u8>, filename: Seq<char>) -> (
    Seq<Seq<char>>,
    bool,
) {
    let name = stored_name_of(data, filename);
    if seq_contains(stored, name) {
        (stored, false)
    } else {
        (stored.push(name), true)
    }
}

/// Storing identical bytes twice yields the same content hash and stored
/// name, and the second store performs no write.
pub proof fn lemma_store_idempotent(stored: Seq<Seq<char>>, data: Seq<u8>, filename: Seq<char>)
    ensures
        ({
            let (s1, w1) = store_result(stored, data, filename);
            let (s2, w2) = store_result(s1, data, filename);
            !w2 && s2 == s1
        }),
{
    let name = stored_name_of(data, filename);
    let (s1, w1) = store_result(stored, data, filename);
    if !seq_contains(stored, name) {
        assert(s1[s1.len() - 1] == name);
        assert(seq_contains(s1, name));
    }
}

/// What `save_file` hands back: where the bytes can be retrieved, the name
/// they are stored under, and whether this call wrote them.
pub struct StoredFile {
    pub url: String,
    pub stored_name: String,
    pub wrote: bool,
}

/// The analysis service: configuration, the prompt catalog, the audit
/// logger, and the model of which stored names exist.
pub struct Analyzer {
    pub config: LlmConfig,
    pub server_config: ServerConfig,
    pub prompt_manager: PromptManager,
    pub logger: Logger,
    pub stored_files: Vec<String>,
}

impl Analyzer {
    /// Assembles the service from its parts; the prompt catalog is built by
    /// the caller and injected.
    pub fn new(
        config: LlmConfig,
        server_config: ServerConfig,
        prompt_manager: PromptManager,
    ) -> (r: Analyzer)
        ensures
            r.config == config,
            r.server_config == server_config,
            r.prompt_manager == prompt_manager,
            r.logger.log_dir@ == server_config.logs_dir@,
            r.stored_files@.len() == 0,
    {
        let logger = Logger::new(server_config.logs_dir.as_str());
        Analyzer { config, server_config, prompt_manager, logger, stored_files: Vec::new() }
    }

    /// The content hash of uploaded bytes.
    pub fn calculate_hash(&self, data: &[u8]) -> (r: String)
        ensures
            r@ == sha256_hex_of(data@),
            r@.len() == 64,
    {
        let digest = sha256(data);
        let r = to_hex(&digest);
        proof {
            lemma_hex_view_len(digest@);
        }
        r
    }

    /// The extension a stored file keeps, from the original upload name.
    pub fn get_extension(filename: &str) -> (r: String)
        ensures
            r@ == ext_of(filename@),
    {
        let v = chars_of(filename);
        let n: usize = v.len();
        let dot = rfind_dot_exec(&v);
        match dot {
            Some(p) => {
                if p > 0 {
                    let tail = filename.substring_char(p + 1, n);
                    lowercase(tail)
                } else {
                    String::from_str("pdf")
                }
            }
            None => String::from_str("pdf"),
        }
    }

    /// Stores uploaded bytes under their content hash: computes the stored
    /// name and retrieval URL, and records a write only when no file of that
    /// name exists yet — storing identical bytes again writes nothing.
    pub fn save_file(&mut self, data: &[u8], filename: &str) -> (r: StoredFile)
        ensures
            r.stored_name@ == stored_name_of(data@, filename@),
            r.url@ == url_of(old(self).server_config.base_url@, stored_name_of(data@, filename@)),
            (strs_view(final(self).stored_files@), r.wrote) == store_result(
                strs_view(old(self).stored_files@),
                data@,
                filename@,
            ),
            final(self).config == old(self).config,
            final(self).server_config == old(self).server_config,
            final(self).prompt_manager == old(self).prompt_manager,
            final(self).logger == old(self).logger,
    {
        let hash = self.calculate_hash(data);
        let ext = Self::get_extension(filename);
        let mut name = hash;
        name.append(".");
        name.append(ext.as_str());
        let exists = contains_string(&self.stored_files, name.as_str());
        let wrote = !exists;
        if wrote {
            let ghost pv = self.stored_files@;
            let ghost nv = name@;
            self.stored_files.push(name.clone());
            proof {
                assert forall|k: int| 0 <= k < strs_view(self.stored_files@).len()
                    implies strs_view(self.stored_files@)[k]
                        == strs_view(pv).push(nv)[k] by {
                    assert(strs_view(self.stored_files@)[k] == self.stored_files@[k]@);
                    if k < pv.len() {
                        assert(self.stored_files@[k] == pv[k]);
                        assert(strs_view(pv)[k] == pv[k]@);
                    }
                }
                assert(strs_view(self.stored_files@) =~= strs_view(pv).push(nv));
            }
        }
        let base = &self.server_config.base_url;
        let bv = chars_of(base.as_str());
        let j = rskip_char_exec(&bv, '/', bv.len());
        let mut url = base.as_str().substring_char(0, j).to_owned();
        url.append("/files/");
        url.append(name.as_str());
        proof {
            assert(url@ =~= url_of(self.server_config.base_url@, name@));
        }
        StoredFile { url, stored_name: name, wrote }
    }

    /// Builds the chat request that asks the model to evaluate the stored
    /// file against a job profile: the persona as the system message, the
    /// file reference and the resolved job instruction as the user message.
    /// Fails exactly when the job key and the default job both miss.
    pub fn build_request(&self, file_url: &str, job_key: Option<&str>) -> (r: Result<
        ChatRequest,
        AppError,
    >)
        ensures
            ({
                let k = match job_key {
                    Some(k) => k@,
                    None => DEFAULT_JOB_KEY@,
                };
                match r {
                    Ok(req) => self.prompt_manager.resolve_view(k) is Some
                        && req.model@ == self.config.model@
                        && req.messages@.len() == 2
                        && req.messages@[0].role@ == "system"@
                        && (req.messages@[0].content matches Some(c) && (c matches
                            crate::llm::MessageContent::Text(t) && t@ == SYSTEM_PROMPT@))
                        && req.messages@[1].role@ == "user"@
                        && (req.messages@[1].content matches Some(c) && (c matches
                            crate::llm::MessageContent::MultiModal(parts) && parts@.len() == 2
                            && (parts@[0] matches crate::llm::ContentPart::FileUrl { file_url: f }
                                && f.url@ == file_url@)
                            && (parts@[1] matches crate::llm::ContentPart::Text { text: t }
                                && t@ == vision_prompt_view(
                                    self.prompt_manager.resolve_view(k)->Some_0,
                                ))))
                        && req.temperature_tenths == Some(TEMPERATURE_TENTHS)
                        && (req.thinking matches Some(t) && t.thinking_type@ == "enabled"@),
                    Err(e) => self.prompt_manager.resolve_view(k) is None && e is NotFoundError,
                }
            }),
    {
        let prompt = match self.prompt_manager.build_analysis_prompt_for_vision(job_key) {
            Ok(p) => p,
            Err(e) => {
                return Err(e);
            }
        };
        let system_prompt = self.prompt_manager.get_system_prompt();
        Ok(build_chat_request(self.config.model.as_str(), system_prompt, prompt.as_str(), file_url))
    }
}

/// A hex rendering is twice as long as its bytes.
pub proof fn lemma_hex_view_len(b: Seq<u8>)
    ensures
        hex_view(b).len() == 2 * b.len(),
    decreases b.len(),
{
    if b.len() > 0 {
        lemma_hex_view_len(b.drop_last());
    }
}

/// Index of the last `.` of `v`; exactly `rfind_dot`.
fn rfind_dot_exec(v: &Vec<char>) -> (r: Option<usize>)
    ensures
        match r {
            Some(p) => rfind_dot(v@, v@.len() as int) == Some(p as int) && p < v@.len(),
            None => rfind_dot(v@, v@.len() as int) is None,
        },
{
    let mut j: usize = v.len();
    while j > 0
        invariant
            j <= v@.len(),
            rfind_dot(v@, v@.len() as int) == rfind_dot(v@, j as int),
        decreases j,
    {
        if v[j - 1] == '.' {
            return Some(j - 1);
        }
        j -= 1;
    }
    None
}

} // verus!
