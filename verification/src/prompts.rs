//! The prompt catalog: per-job instruction text keyed by job key, loaded once
//! at process start from the contents of the job files, plus the fixed
//! persona instruction and the fixed output-format specification. Resolving a
//! job key falls back to the `default` job; the analysis instruction embeds
//! the job title (the first Markdown heading line of the job file), the full
//! requirement text, and the output-format specification.

use vstd::prelude::*;
use vstd::string::StrSliceExecFns;
use vstd::string::StringExecFns;

use crate::error::AppError;
use crate::text::{
    char_vecs_equal, chars_of, is_match_at, match_at, scan_nl, scan_to_nl, strip_hash_prefixes,
    trim_range, trim_seq,
};

verus! {

/// The built-in persona instruction sent as the system message.
pub const SYSTEM_PROMPT: &'static str = "你是一位专业的HR和招聘专家，擅长分析简历并给出客观、专业的评价。你需要根据岗位要求评估候选人的匹配度。";

/// The fixed, non-configurable specification of the structured output the
/// model must return.
pub const OUTPUT_FORMAT_SPEC: &'static str = r#"
## 返回格式

严格的 XML 格式，不要有任何额外的文字说明：

```xml
<analysis>
  <basic_info>
    <name>张三</name>
    <gender>男</gender>
    <age>28</age>
    <phone>13812345678</phone>
    <email>zhangsan@example.com</email>
    <location>北京</location>
    <work_years>5年</work_years>
    <degree>本科</degree>
    <major>计算机科学与技术</major>
    <school>北京大学</school>
    <current_company>某科技公司</current_company>
    <current_position>高级后端工程师</current_position>
  </basic_info>

  <score>85</score>
  <summary>候选人具有5年软件开发经验，技术栈扎实。在分布式系统和高并发场景有丰富实践，主导过多个核心项目。Rust 技能突出，符合岗位核心要求。有开源贡献，展现良好的技术影响力。整体与岗位匹配度较高，建议进入面试环节。</summary>

  <skills>
    <level>优秀</level>
    <details>精通 Rust 语言，熟悉 Tokio 异步编程。对分布式系统、微服务架构有深入理解。数据库和缓存使用经验丰富。完全符合岗位技术栈要求。</details>
  </skills>

  <experience>
    <level>良好</level>
    <details>5年后端开发经验，参与过3个大型项目。有从0到1搭建系统的经验，能独立承担核心模块开发。项目复杂度适中,展现出较强的工程能力。</details>
  </experience>

  <strengths>
    <item>Rust 技术深度突出，有3年以上实战经验和开源项目贡献</item>
    <item>分布式系统设计能力强，主导过千万级用户量的核心服务</item>
    <item>代码质量意识好，注重测试和文档，有良好的工程素养</item>
    <item>学习能力强，技术栈更新及时，保持技术敏感度</item>
  </strengths>

  <concerns>
    <item>团队协作经验描述较少，需面试中重点了解沟通协作能力</item>
    <item>云原生技术栈（K8s）经验不足，需确认学习意愿和能力</item>
    <item>简历中性能优化案例缺少量化数据，需验证实际深度</item>
  </concerns>

  <focus>
    <item>深入考察分布式系统设计能力：询问具体架构决策、技术选型依据、遇到的挑战及解决方案</item>
    <item>验证 Rust 实战能力：了解异步编程最佳实践、内存管理经验、性能调优案例</item>
    <item>评估问题解决能力：询问遇到的最大技术难题、分析思路、解决过程和反思总结</item>
    <item>了解团队协作方式：沟通风格、code review 习惯、技术分享经验、冲突处理方式</item>
    <item>确认岗位匹配度：对该岗位的理解、职业规划、技术成长预期、稳定性评估</item>
  </focus>
</analysis>
```

**重要提示**：所有基础信息字段必须从简历中真实提取，如果简历中没有相关信息，必须填写"未知"，不要编造或推测。
"#;

/// Opening of the analysis instruction built for vision models.
pub const VISION_PRE: &'static str = "请仔细阅读上传的简历文件，并根据以下岗位要求进行分析：\n\n";

/// Closing of the analysis instruction built for vision models.
pub const VISION_POST: &'static str = "\n\n请注意：\n1. 仔细提取简历中的所有关键信息，包括基础信息、技能、经验等\n2. 如果简历中没有某个基础信息字段，请填写\"未知\"，不要推测或编造\n3. 按照 XML 格式严格输出分析结果";

/// The title used when a job file has no Markdown heading line.
pub const UNKNOWN_TITLE: &'static str = "未知岗位";

/// The key of the job every unknown key falls back to.
pub const DEFAULT_JOB_KEY: &'static str = "default";

/// The keys and contents of a sequence of string pairs.
pub open spec fn pairs_view(s: Seq<(String, String)>) -> Seq<(Seq<char>, Seq<char>)> {
    Seq::new(s.len(), |i: int| (s[i].0@, s[i].1@))
}

/// Whether a file name ends in `.md`.
pub open spec fn is_md_name(name: Seq<char>) -> bool {
    name.len() >= 3 && name[name.len() - 3] == '.' && name[name.len() - 2] == 'm'
        && name[name.len() - 1] == 'd'
}

/// The job entries a directory listing yields: one entry per `.md` file, its
/// key the file name without the extension, in listing order.
pub open spec fn job_entries(files: Seq<(Seq<char>, Seq<char>)>) -> Seq<(Seq<char>, Seq<char>)>
    decreases files.len(),
{
    if files.len() == 0 {
        Seq::empty()
    } else {
        let last = files.last();
        job_entries(files.drop_last()) + (if is_md_name(last.0) {
            seq![(last.0.subrange(0, last.0.len() - 3), last.1)]
        } else {
            Seq::empty()
        })
    }
}

/// Index of the first entry with the given key, at or after `i`.
pub open spec fn key_index(s: Seq<(Seq<char>, Seq<char>)>, k: Seq<char>, i: int) -> Option<int>
    recommends
        0 <= i,
    decreases s.len() - i,
        when 0 <= i
{
    if i >= s.len() {
        None
    } else if s[i].0 == k {
        Some(i)
    } else {
        key_index(s, k, i + 1)
    }
}

/// Position of the start of the first line at or after the line start `i`
/// that begins with `"# "`.
pub open spec fn title_scan(s: Seq<char>, i: int) -> Option<int>
    recommends
        0 <= i <= s.len(),
    decreases s.len() - i,
        when 0 <= i <= s.len()
{
    if match_at(s, "# "@, i) {
        Some(i)
    } else {
        let e = scan_to_nl(s, i);
        if i <= e < s.len() {
            title_scan(s, e + 1)
        } else {
            None
        }
    }
}

/// The title of a job file: its first Markdown heading line, with the heading
/// marks and surrounding whitespace removed, else a fixed placeholder.
pub open spec fn title_of(s: Seq<char>) -> Seq<char> {
    match title_scan(s, 0) {
        Some(p) => trim_seq(strip_hash_prefixes(s.subrange(p, scan_to_nl(s, p)))),
        None => UNKNOWN_TITLE@,
    }
}

/// The job requirement fragment embedded into the analysis instruction.
pub open spec fn job_xml_view(content: Seq<char>) -> Seq<char> {
    "<job_title>"@ + title_of(content) + "</job_title>\n<requirements>\n"@ + trim_seq(content)
        + "\n</requirements>"@
}

/// The complete analysis instruction for one job's requirement text.
pub open spec fn vision_prompt_view(content: Seq<char>) -> Seq<char> {
    VISION_PRE@ + job_xml_view(content) + "\n\n"@ + OUTPUT_FORMAT_SPEC@ + VISION_POST@
}

/// The catalog of per-job instruction texts, immutable for the process
/// lifetime and handed by reference to the components that need it.
pub struct PromptManager {
    pub jobs_cache: Vec<(String, String)>,
}

impl PromptManager {
    /// The keys and contents of the catalog, in load order.
    pub open spec fn jobs_view(&self) -> Seq<(Seq<char>, Seq<char>)> {
        pairs_view(self.jobs_cache@)
    }

    /// Whether some entry carries the key `k`.
    pub open spec fn has_job(&self, k: Seq<char>) -> bool {
        key_index(self.jobs_view(), k, 0) is Some
    }

    /// The content a key resolves to: the first entry with that key, else the
    /// first `default` entry, else nothing.
    pub open spec fn resolve_view(&self, k: Seq<char>) -> Option<Seq<char>> {
        match key_index(self.jobs_view(), k, 0) {
            Some(i) => Some(self.jobs_view()[i].1),
            None => match key_index(self.jobs_view(), DEFAULT_JOB_KEY@, 0) {
                Some(i) => Some(self.jobs_view()[i].1),
                None => None,
            },
        }
    }

    /// Builds the catalog from a directory listing of `(file name, content)`
    /// pairs; fails when no `.md` job file is among them. Reading the
    /// directory is the caller's concern.
    pub fn load(files: Vec<(String, String)>) -> (r: Result<PromptManager, AppError>)
        ensures
            match r {
                Ok(m) => m.jobs_view() == job_entries(pairs_view(files@))
                    && job_entries(pairs_view(files@)).len() > 0,
                Err(e) => job_entries(pairs_view(files@)).len() == 0 && e is FileError,
            },
    {
        let ghost fv = pairs_view(files@);
        let mut jobs: Vec<(String, String)> = Vec::new();
        let mut i: usize = 0;
        proof {
            assert(pairs_view(jobs@) =~= job_entries(fv.subrange(0, 0)));
        }
        while i < files.len()
            invariant
                i <= files@.len(),
                fv == pairs_view(files@),
                pairs_view(jobs@) == job_entries(fv.subrange(0, i as int)),
            decreases files@.len() - i,
        {
            let ghost prev = pairs_view(jobs@);
            let name: &String = &files[i].0;
            let nc = chars_of(name.as_str());
            let l = nc.len();
            if l >= 3 && nc[l - 3] == '.' && nc[l - 2] == 'm' && nc[l - 1] == 'd' {
                let key = name.as_str().substring_char(0, l - 3).to_owned();
                let content = files[i].1.clone();
                jobs.push((key, content));
                proof {
                    assert forall|k: int| 0 <= k < pairs_view(jobs@).len()
                        implies pairs_view(jobs@)[k]
                            == (prev + seq![(fv[i as int].0.subrange(0, fv[i as int].0.len() - 3),
                                fv[i as int].1)])[k] by {
                    }
                    assert(pairs_view(jobs@) =~= prev
                        + seq![(fv[i as int].0.subrange(0, fv[i as int].0.len() - 3),
                            fv[i as int].1)]);
                }
            } else {
                proof {
                    assert(!is_md_name(fv[i as int].0));
                }
            }
            proof {
                let pre1 = fv.subrange(0, i + 1);
                assert(pre1.drop_last() =~= fv.subrange(0, i as int));
                assert(pre1.last() == fv[i as int]);
                assert(pairs_view(jobs@) =~= job_entries(pre1));
            }
            i += 1;
        }
        proof {
            assert(fv.subrange(0, files@.len() as int) =~= fv);
        }
        if jobs.len() == 0 {
            proof {
                assert(job_entries(fv).len() == 0);
            }
            Err(AppError::FileError(String::from_str("No job files found")))
        } else {
            let m = PromptManager { jobs_cache: jobs };
            proof {
                assert(m.jobs_view().len() > 0);
            }
            Ok(m)
        }
    }

    /// The persona instruction sent as the system message; independent of the
    /// job key.
    pub fn get_system_prompt(&self) -> (r: &str)
        ensures
            r@ == SYSTEM_PROMPT@,
    {
        SYSTEM_PROMPT
    }

    /// The first entry with key `k`, as an index into the cache.
    fn find_key(&self, k: &str) -> (r: Option<usize>)
        ensures
            match r {
                Some(i) => key_index(self.jobs_view(), k@, 0) == Some(i as int)
                    && i < self.jobs_cache@.len(),
                None => key_index(self.jobs_view(), k@, 0) is None,
            },
    {
        let kc = chars_of(k);
        let mut i: usize = 0;
        while i < self.jobs_cache.len()
            invariant
                i <= self.jobs_cache@.len(),
                kc@ == k@,
                key_index(self.jobs_view(), k@, 0) == key_index(self.jobs_view(), k@, i as int),
            decreases self.jobs_cache@.len() - i,
        {
            let ec = chars_of(self.jobs_cache[i].0.as_str());
            if char_vecs_equal(&ec, &kc) {
                proof {
                    assert(self.jobs_view()[i as int].0 == k@);
                }
                return Some(i);
            }
            proof {
                assert(self.jobs_view()[i as int].0 == self.jobs_cache@[i as int].0@);
                assert(self.jobs_view()[i as int].0 != k@);
            }
            i += 1;
        }
        None
    }

    /// Builds the complete analysis instruction for a job key: the resolved
    /// job's title and requirements followed by the fixed output-format
    /// specification. An absent key falls back to the `default` job; when
    /// that is absent too, fails with a not-found error naming the key.
    pub fn build_analysis_prompt_for_vision(&self, job_key: Option<&str>) -> (r: Result<
        String,
        AppError,
    >)
        ensures
            ({
                let k = match job_key {
                    Some(k) => k@,
                    None => DEFAULT_JOB_KEY@,
                };
                match r {
                    Ok(p) => self.resolve_view(k) is Some
                        && p@ == vision_prompt_view(self.resolve_view(k)->Some_0),
                    Err(e) => self.resolve_view(k) is None
                        && (e matches AppError::NotFoundError(m)
                            && m@ == "Job '"@ + k + "' not found"@),
                }
            }),
    {
        let key: &str = match job_key {
            Some(k) => k,
            None => DEFAULT_JOB_KEY,
        };
        let idx = match self.find_key(key) {
            Some(i) => Some(i),
            None => self.find_key(DEFAULT_JOB_KEY),
        };
        match idx {
            Some(i) => {
                let content: &String = &self.jobs_cache[i].1;
                let title = Self::extract_title(content.as_str());
                let tc = chars_of(content.as_str());
                let (a, b) = trim_range(&tc, 0, tc.len());
                proof {
                    assert(tc@.subrange(0, tc@.len() as int) =~= tc@);
                }
                let trimmed = content.as_str().substring_char(a, b);
                let mut out = String::from_str(VISION_PRE);
                out.append("<job_title>");
                out.append(title.as_str());
                out.append("</job_title>\n<requirements>\n");
                out.append(trimmed);
                out.append("\n</requirements>");
                out.append("\n\n");
                out.append(OUTPUT_FORMAT_SPEC);
                out.append(VISION_POST);
                proof {
                    assert(out@ =~= vision_prompt_view(self.jobs_view()[i as int].1));
                }
                Ok(out)
            }
            None => {
                let mut msg = String::from_str("Job '");
                msg.append(key);
                msg.append("' not found");
                Err(AppError::NotFoundError(msg))
            }
        }
    }

    /// The title of a job file: the first Markdown heading line with its
    /// heading marks stripped and surrounding whitespace trimmed, else a
    /// fixed placeholder.
    pub fn extract_title(content: &str) -> (r: String)
        ensures
            r@ == title_of(content@),
    {
        let v = chars_of(content);
        let i = match find_title_line(&v) {
            Some(p) => p,
            None => {
                return String::from_str(UNKNOWN_TITLE);
            }
        };
        // The heading line runs from `i` to the next newline.
        let e = scan_nl(&v, i);
        let ghost line = v@.subrange(i as int, e as int);
        // Strip repeated "# " marks from the front of the line.
        let mut q: usize = i;
        while e - q >= 2 && v[q] == '#' && v[q + 1] == ' '
            invariant
                i <= q <= e <= v@.len(),
                v@ == content@,
                e == scan_to_nl(v@, i as int),
                strip_hash_prefixes(line) == strip_hash_prefixes(v@.subrange(q as int, e as int)),
            decreases e - q,
        {
            proof {
                let cur = v@.subrange(q as int, e as int);
                assert(cur[0] == '#' && cur[1] == ' ');
                assert(cur.subrange(2, cur.len() as int) =~= v@.subrange(q + 2, e as int));
            }
            q += 2;
        }
        proof {
            let cur = v@.subrange(q as int, e as int);
            assert(strip_hash_prefixes(cur) == cur);
            assert(line =~= v@.subrange(i as int, scan_to_nl(v@, i as int)));
        }
        let (a, b) = trim_range(&v, q, e);
        let r = content.substring_char(a, b).to_owned();
        proof {
            assert(r@ == trim_seq(strip_hash_prefixes(line)));
        }
        r
    }
}

/// Fallback resolution: a key the catalog does not hold resolves to exactly
/// what `default` resolves to; when `default` is missing too, both fail.
pub proof fn lemma_resolve_fallback(m: &PromptManager, k: Seq<char>)
    requires
        !m.has_job(k),
    ensures
        m.resolve_view(k) == m.resolve_view(DEFAULT_JOB_KEY@),
        !m.has_job(DEFAULT_JOB_KEY@) ==> m.resolve_view(k) is None,
{
}

/// Position of the first line of `v` that begins with `"# "`.
fn find_title_line(v: &Vec<char>) -> (r: Option<usize>)
    ensures
        match r {
            Some(p) => title_scan(v@, 0) == Some(p as int) && p <= v@.len(),
            None => title_scan(v@, 0) is None,
        },
{
    let hp = chars_of("# ");
    let mut i: usize = 0;
    loop
        invariant
            hp@ == "# "@,
            0 <= i <= v@.len(),
            title_scan(v@, 0) == title_scan(v@, i as int),
        decreases v@.len() - i,
    {
        if is_match_at(v, &hp, i) {
            return Some(i);
        }
        let e = scan_nl(v, i);
        if e < v.len() {
            i = e + 1;
        } else {
            proof {
                assert(title_scan(v@, i as int) is None);
            }
            return None;
        }
    }
}


} // verus!
