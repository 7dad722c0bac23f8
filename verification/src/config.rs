//! Configuration values: the default system prompt, model-specific prompt
//! lookup, and the well-known file names under the configuration directory.
//!
//! Reading and writing the configuration file is the surrounding
//! application's business; this module only holds the data and the pure
//! path arithmetic.

use vstd::prelude::*;
use vstd::string::*;

verus! {

/// Configuration: a default system prompt and per-model overrides.
///
/// The override list associates model names with prompts; a model name
/// appears at most once.
#[derive(Clone)]
pub struct Config {
    /// Prompt used when no model-specific prompt is configured.
    pub default_system_prompt: String,
    /// Model-specific system prompts, as (model name, prompt) pairs.
    pub model_prompts: Vec<(String, String)>,
}

impl Config {
    /// No model name occurs twice among the overrides.
    pub open spec fn wf(&self) -> bool {
        forall|i: int, j: int|
            0 <= i < j < self.model_prompts@.len() ==> self.model_prompts@[i].0@
                != self.model_prompts@[j].0@
    }

    /// The prompt configured for `model`: the override if one exists,
    /// the default prompt otherwise.
    pub open spec fn spec_prompt_for(&self, model: Seq<char>) -> Seq<char> {
        if exists|i: int|
            0 <= i < self.model_prompts@.len() && self.model_prompts@[i].0@ == model {
            let i = choose|i: int|
                0 <= i < self.model_prompts@.len() && self.model_prompts@[i].0@ == model;
            self.model_prompts@[i].1@
        } else {
            self.default_system_prompt@
        }
    }

    /// Get the system prompt for a specific model: the model's own prompt
    /// when one is configured, the default prompt otherwise.
    pub fn get_system_prompt<'a>(&'a self, model: &str) -> (r: &'a str)
        requires
            self.wf(),
        ensures
            r@ == self.spec_prompt_for(model@),
    {
        let m: String = model.to_owned();
        let n = self.model_prompts.len();
        let mut k: usize = 0;
        while k < n
            invariant
                m@ == model@,
                n == self.model_prompts@.len(),
                k <= n,
                self.wf(),
                forall|i: int| 0 <= i < k ==> self.model_prompts@[i].0@ != model@,
            decreases n - k,
        {
            if self.model_prompts[k].0 == m {
                return self.model_prompts[k].1.as_str();
            }
            k += 1;
        }
        self.default_system_prompt.as_str()
    }
}

/// The default system prompt, as a sequence of characters.
pub open spec fn spec_default_system_prompt() -> Seq<char> {
    "You are a helpful assistant for software development. When suggesting changes to code:

1. ALWAYS present code edits as standard unified diff blocks with this EXACT format:
```diff
--- path/to/file.ext
+++ path/to/file.ext
@@ -lineStart,lineCount +lineStart,lineCount @@
 context line
-old line
+new line
 context line
```

2. IMPORTANT RULES for code suggestions:
   - Include COMPLETE file path in the header (--- and +++ lines) of EACH diff block
   - The file path should be the FULL path relative to the project root (e.g., 'src/main.rs' NOT just 'main.rs')
   - Start a NEW diff block for EACH file you modify
   - Use complete paths starting from the repository root
   - Show '-' for lines to remove, '+' for lines to add
   - Always include at least 3 context lines before and after each change
   - Include line numbers in the @@ header for each change section
   - Use a SEPARATE diff block for EACH distinct change to the same file

3. For new files, use this format:
```diff
--- /dev/null
+++ path/to/newfile.ext
@@ -0,0 +1,3 @@
+line 1 of new file
+line 2 of new file
+line 3 of new file
```

4. ALWAYS show diffs for ANY code changes you suggest. Do not just describe changes. Show actual diff blocks.

5. If supplying lengthy code, break it into MULTIPLE small diff blocks rather than one huge block.

6. Make sure the line numbers in the @@ headers accurately reflect the line position in the file.

7. CRITICAL: The path in the '+++ path/to/file.ext' line MUST be exact and complete. This is what will be used to locate the file.

7. NEVER show more than one way to do something. Select the best option and only show that one.

8. NEVER show how to use the code such as bash commands unless they are part of a README.md or similar instructional file."@
}

/// Get the default system prompt used when no configuration is present.
pub fn default_system_prompt() -> (r: String)
    ensures
        r@ == spec_default_system_prompt(),
{
    "You are a helpful assistant for software development. When suggesting changes to code:

1. ALWAYS present code edits as standard unified diff blocks with this EXACT format:
```diff
--- path/to/file.ext
+++ path/to/file.ext
@@ -lineStart,lineCount +lineStart,lineCount @@
 context line
-old line
+new line
 context line
```

2. IMPORTANT RULES for code suggestions:
   - Include COMPLETE file path in the header (--- and +++ lines) of EACH diff block
   - The file path should be the FULL path relative to the project root (e.g., 'src/main.rs' NOT just 'main.rs')
   - Start a NEW diff block for EACH file you modify
   - Use complete paths starting from the repository root
   - Show '-' for lines to remove, '+' for lines to add
   - Always include at least 3 context lines before and after each change
   - Include line numbers in the @@ header for each change section
   - Use a SEPARATE diff block for EACH distinct change to the same file

3. For new files, use this format:
```diff
--- /dev/null
+++ path/to/newfile.ext
@@ -0,0 +1,3 @@
+line 1 of new file
+line 2 of new file
+line 3 of new file
```

4. ALWAYS show diffs for ANY code changes you suggest. Do not just describe changes. Show actual diff blocks.

5. If supplying lengthy code, break it into MULTIPLE small diff blocks rather than one huge block.

6. Make sure the line numbers in the @@ headers accurately reflect the line position in the file.

7. CRITICAL: The path in the '+++ path/to/file.ext' line MUST be exact and complete. This is what will be used to locate the file.

7. NEVER show more than one way to do something. Select the best option and only show that one.

8. NEVER show how to use the code such as bash commands unless they are part of a README.md or similar instructional file.".to_owned()
}

impl Default for Config {
    /// The default configuration: the stock prompt and no overrides.
    fn default() -> (r: Config)
        ensures
            r.default_system_prompt@ == spec_default_system_prompt(),
            r.model_prompts@ == Seq::<(String, String)>::empty(),
            r.wf(),
    {
        Config { default_system_prompt: default_system_prompt(), model_prompts: Vec::new() }
    }
}

/// Assemble the full prompt sent to the model: the conversation so far,
/// the directory context, and the user's request, under fixed headings.
pub fn build_prompt(history: &str, context: &str, request: &str) -> (r: String)
    ensures
        r@ == history@ + "\n\nContext of the current directory:\n"@ + context@
            + "\n\nUser request: "@ + request@,
{
    let mut s: String = history.to_owned();
    s.append("\n\nContext of the current directory:\n");
    s.append(context);
    s.append("\n\nUser request: ");
    s.append(request);
    proof {
        assert(s@ =~= history@ + "\n\nContext of the current directory:\n"@ + context@
            + "\n\nUser request: "@ + request@);
    }
    s
}

/// Get the path to the configuration file inside the configuration
/// directory.
pub fn get_config_path(config_dir: &str) -> (r: String)
    ensures
        r@ == config_dir@ + "/config.toml"@,
{
    let mut s: String = config_dir.to_owned();
    s.append("/config.toml");
    s
}

/// Get the path to the prompt-history file inside the configuration
/// directory.
pub fn get_history_file_path(config_dir: &str) -> (r: String)
    ensures
        r@ == config_dir@ + "/history"@,
{
    let mut s: String = config_dir.to_owned();
    s.append("/history");
    s
}

} // verus!
