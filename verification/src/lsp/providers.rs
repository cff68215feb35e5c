//! Language servers: which ones there are, which one serves a file and how it
//! is started.

use vstd::prelude::*;
use vstd::slice::slice_subrange;

use crate::json;
use crate::json::Json;
use crate::lsp::output;
use crate::paths;
use crate::text;
use crate::text_order;

verus! {

/// A language server and the files that it serves.
#[derive(Debug)]
pub struct LspProvider {
    pub id: String,
    pub source: String,
    pub aliases: Vec<String>,
    pub file_extensions: Vec<String>,
    pub workspace_markers: Vec<String>,
    pub default_command: String,
    pub default_args: Vec<String>,
    pub command_env_var: Option<String>,
    pub args_env_var: Option<String>,
    pub default_language_id: String,
    /// Language names by extension; of two for the same extension the later
    /// one holds.
    pub extension_language_ids: Vec<(String, String)>,
}

/// What an [`LspProvider`] stands for.
#[verifier::ext_equal]
pub ghost struct ProviderView {
    pub id: Seq<char>,
    pub source: Seq<char>,
    pub aliases: Seq<Seq<char>>,
    pub file_extensions: Seq<Seq<char>>,
    pub workspace_markers: Seq<Seq<char>>,
    pub default_command: Seq<char>,
    pub default_args: Seq<Seq<char>>,
    pub command_env_var: Option<Seq<char>>,
    pub args_env_var: Option<Seq<char>>,
    pub default_language_id: Seq<char>,
    pub extension_language_ids: Seq<(Seq<char>, Seq<char>)>,
}

impl View for LspProvider {
    type V = ProviderView;

    open spec fn view(&self) -> ProviderView {
        ProviderView {
            id: self.id@,
            source: self.source@,
            aliases: text::texts(self.aliases@),
            file_extensions: text::texts(self.file_extensions@),
            workspace_markers: text::texts(self.workspace_markers@),
            default_command: self.default_command@,
            default_args: text::texts(self.default_args@),
            command_env_var: text::opt_text(self.command_env_var),
            args_env_var: text::opt_text(self.args_env_var),
            default_language_id: self.default_language_id@,
            extension_language_ids: pair_views(self.extension_language_ids@),
        }
    }
}

/// The views of pairs of strings.
pub open spec fn pair_views(pairs: Seq<(String, String)>) -> Seq<(Seq<char>, Seq<char>)> {
    Seq::new(pairs.len(), |i: int| (pairs[i].0@, pairs[i].1@))
}

/// The views of a list of providers.
pub open spec fn provider_views(providers: Seq<LspProvider>) -> Seq<ProviderView> {
    Seq::new(providers.len(), |i: int| providers[i]@)
}

/// The command and the arguments that start a server.
#[derive(Debug)]
pub struct LspServerConfig {
    pub command: String,
    pub args: Vec<String>,
}

/// What a plugin file says about a language server.
#[derive(Debug)]
pub struct LspProviderPlugin {
    pub id: String,
    pub aliases: Vec<String>,
    pub file_extensions: Vec<String>,
    pub workspace_markers: Vec<String>,
    pub command: String,
    pub args: Vec<String>,
    pub language_id: Option<String>,
    pub extension_language_ids: Vec<(String, String)>,
    pub command_env_var: Option<String>,
    pub args_env_var: Option<String>,
}

// ---------------------------------------------------------------------------
// Extensions.

/// The number of dots at the start of a text, from position `i` on.
pub open spec fn skip_dots(s: Seq<char>, i: int) -> int
    decreases s.len() - i,
{
    if 0 <= i < s.len() && s[i] == '.' {
        skip_dots(s, i + 1)
    } else {
        i
    }
}

/// An extension without white space around it and dots before it, in lower
/// case.
pub open spec fn plain_extension(value: Seq<char>) -> Seq<char> {
    let bare = text::trimmed(value);
    text::lowered(bare.skip(skip_dots(bare, 0)))
}

/// The plain form of every extension.
pub open spec fn plain_extensions(values: Seq<Seq<char>>) -> Seq<Seq<char>> {
    Seq::new(values.len(), |i: int| plain_extension(values[i]))
}

/// The plain form of the extensions of pairs.
pub open spec fn plain_keys(pairs: Seq<(Seq<char>, Seq<char>)>) -> Seq<(Seq<char>, Seq<char>)> {
    Seq::new(pairs.len(), |i: int| (plain_extension(pairs[i].0), pairs[i].1))
}

/// The plain form of an extension.
pub fn normalize_extension(value: &str) -> (out: String)
    ensures
        out@ == plain_extension(value@),
{
    let chars = text::chars_of(value);
    let bare = text::trim(&chars);
    let mut i: usize = 0;
    while i < bare.len() && bare[i] == '.'
        invariant
            i <= bare@.len(),
            skip_dots(bare@, i as int) == skip_dots(bare@, 0),
        decreases bare@.len() - i,
    {
        i += 1;
    }
    let rest = slice_subrange(bare, i, bare.len());
    proof {
        assert(rest@ =~= bare@.skip(i as int));
    }
    text::text_of(&text::lower(rest))
}

fn normalize_extensions(values: &[String]) -> (out: Vec<String>)
    ensures
        text::texts(out@) == plain_extensions(text::texts(values@)),
{
    let mut out: Vec<String> = Vec::new();
    let mut i: usize = 0;
    while i < values.len()
        invariant
            i <= values@.len(),
            out@.len() == i,
            forall|k: int| 0 <= k < i ==> (#[trigger] out@[k])@ == plain_extension(values@[k]@),
        decreases values@.len() - i,
    {
        out.push(normalize_extension(values[i].as_str()));
        i += 1;
    }
    proof {
        assert(text::texts(out@) =~= plain_extensions(text::texts(values@)));
    }
    out
}

fn normalize_keys(pairs: &[(String, String)]) -> (out: Vec<(String, String)>)
    ensures
        pair_views(out@) == plain_keys(pair_views(pairs@)),
{
    let mut out: Vec<(String, String)> = Vec::new();
    let mut i: usize = 0;
    while i < pairs.len()
        invariant
            i <= pairs@.len(),
            out@.len() == i,
            forall|k: int|
                0 <= k < i ==> (#[trigger] out@[k]).0@ == plain_extension(pairs@[k].0@)
                    && out@[k].1@ == pairs@[k].1@,
        decreases pairs@.len() - i,
    {
        let key = normalize_extension(pairs[i].0.as_str());
        let value = pairs[i].1.clone();
        out.push((key, value));
        i += 1;
    }
    proof {
        assert(pair_views(out@) =~= plain_keys(pair_views(pairs@)));
    }
    out
}

// ---------------------------------------------------------------------------
// Making providers.

/// The provider that a plugin describes.
pub open spec fn provider_of_plugin(plugin: LspProviderPlugin, source: Seq<char>) -> Result<
    ProviderView,
    Seq<char>,
> {
    if text::is_blank(plugin.id@) {
        Err("provider id must not be empty"@)
    } else if text::is_blank(plugin.command@) {
        Err("provider command must not be empty for "@ + plugin.id@)
    } else {
        Ok(
            ProviderView {
                id: plugin.id@,
                source,
                aliases: text::texts(plugin.aliases@),
                file_extensions: plain_extensions(text::texts(plugin.file_extensions@)),
                workspace_markers: text::texts(plugin.workspace_markers@),
                default_command: plugin.command@,
                default_args: text::texts(plugin.args@),
                command_env_var: text::opt_text(plugin.command_env_var),
                args_env_var: text::opt_text(plugin.args_env_var),
                default_language_id: match plugin.language_id {
                    Some(id) => id@,
                    None => plugin.id@,
                },
                extension_language_ids: plain_keys(pair_views(plugin.extension_language_ids@)),
            },
        )
    }
}

/// The last language name for an extension, among the first `n` pairs.
pub open spec fn language_for(pairs: Seq<(Seq<char>, Seq<char>)>, extension: Seq<char>, n: int)
    -> Option<Seq<char>>
    decreases n,
{
    if n <= 0 || n > pairs.len() {
        None
    } else if pairs[n - 1].0 == extension {
        Some(pairs[n - 1].1)
    } else {
        language_for(pairs, extension, n - 1)
    }
}

impl ProviderView {
    /// Whether a language name means this provider.
    pub open spec fn answers_to(self, language: Seq<char>) -> bool {
        let wanted = text::lowered(text::trimmed(language));
        ||| text::lowered(self.id) == text::lowered(wanted)
        ||| exists|i: int|
            0 <= i < self.aliases.len() && text::lowered(#[trigger] self.aliases[i])
                == text::lowered(wanted)
    }

    /// Whether this provider serves a file.
    pub open spec fn serves(self, path: Seq<char>) -> bool {
        match paths::extension_of(path) {
            Some(extension) => self.file_extensions.contains(plain_extension(extension)),
            None => false,
        }
    }

    /// The language of a file.
    pub open spec fn language_of(self, path: Seq<char>) -> Seq<char> {
        let found = match paths::extension_of(path) {
            Some(extension) => language_for(
                self.extension_language_ids,
                plain_extension(extension),
                self.extension_language_ids.len() as int,
            ),
            None => None,
        };
        match found {
            Some(language) => language,
            None => self.default_language_id,
        }
    }

    /// The command that starts the server, given what the environment says.
    pub open spec fn command(self, variable: Option<Seq<char>>) -> Seq<char> {
        match variable {
            Some(value) => if text::is_blank(value) {
                self.default_command
            } else {
                text::trimmed(value)
            },
            None => self.default_command,
        }
    }

    /// The arguments of the server, given the words that the environment says.
    pub open spec fn args(self, words: Option<Seq<Seq<char>>>) -> Seq<Seq<char>> {
        match words {
            Some(list) => list,
            None => self.default_args,
        }
    }
}

/// The words of a command line, as a POSIX shell splits it; none where a quote
/// or an escape is left open.
pub uninterp spec fn shell_words(line: Seq<char>) -> Option<Seq<Seq<char>>>;

/// The views of an optional list of strings.
pub open spec fn opt_texts(words: Option<Vec<String>>) -> Option<Seq<Seq<char>>> {
    match words {
        Some(list) => Some(text::texts(list@)),
        None => None,
    }
}

/// `shlex::split`: the words, or that there are none, depend on the line
/// alone.
#[verifier::external_body]
fn split_command_line(line: &str) -> (words: Option<Vec<String>>)
    ensures
        opt_texts(words) == shell_words(line@),
{
    shlex::split(line)
}

/// The words that the environment gives as arguments.
pub open spec fn argument_words(variable: Option<Seq<char>>) -> Option<Seq<Seq<char>>> {
    match variable {
        Some(value) => shell_words(value),
        None => None,
    }
}

impl LspProvider {
    /// The provider that a plugin describes.
    pub fn from_plugin(plugin: LspProviderPlugin, source: &str) -> (r: Result<LspProvider, String>)
        ensures
            (match r {
                Ok(provider) => Ok(provider@),
                Err(message) => Err(message@),
            }) == provider_of_plugin(plugin, source@),
    {
        if text::blank(&text::chars_of(plugin.id.as_str())) {
            return Err("provider id must not be empty".to_string());
        }
        if text::blank(&text::chars_of(plugin.command.as_str())) {
            let mut message = "provider command must not be empty for ".to_string();
            message.append(plugin.id.as_str());
            return Err(message);
        }
        let default_language_id = match plugin.language_id {
            Some(id) => id,
            None => plugin.id.clone(),
        };
        Ok(
            LspProvider {
                file_extensions: normalize_extensions(&plugin.file_extensions),
                extension_language_ids: normalize_keys(&plugin.extension_language_ids),
                id: plugin.id,
                source: source.to_string(),
                aliases: plugin.aliases,
                workspace_markers: plugin.workspace_markers,
                default_command: plugin.command,
                default_args: plugin.args,
                command_env_var: plugin.command_env_var,
                args_env_var: plugin.args_env_var,
                default_language_id,
            },
        )
    }

    /// Whether a language name means this provider.
    pub fn matches_language_hint(&self, language: &str) -> (r: bool)
        ensures
            r == self@.answers_to(language@),
    {
        let chars = text::chars_of(language);
        let wanted = text::lower(&text::lower(text::trim(&chars)));
        if text::same_chars(&text::lower(&text::chars_of(self.id.as_str())), &wanted) {
            return true;
        }
        let mut i: usize = 0;
        while i < self.aliases.len()
            invariant
                i <= self.aliases@.len(),
                wanted@ == text::lowered(text::lowered(text::trimmed(language@))),
                text::lowered(self@.id) != wanted@,
                forall|k: int|
                    0 <= k < i ==> text::lowered(#[trigger] self@.aliases[k]) != wanted@,
            decreases self.aliases@.len() - i,
        {
            if text::same_chars(
                &text::lower(&text::chars_of(self.aliases[i].as_str())),
                &wanted,
            ) {
                proof {
                    assert(text::lowered(self@.aliases[i as int]) == wanted@);
                }
                return true;
            }
            i += 1;
        }
        false
    }

    /// Whether this provider serves a file.
    pub fn supports_path(&self, path: &str) -> (r: bool)
        ensures
            r == self@.serves(path@),
    {
        let wanted = match paths::extension(path) {
            Some(extension) => normalize_extension(extension.as_str()),
            None => {
                return false;
            },
        };
        let mut i: usize = 0;
        while i < self.file_extensions.len()
            invariant
                i <= self.file_extensions@.len(),
                paths::extension_of(path@) is Some,
                wanted@ == plain_extension(paths::extension_of(path@).unwrap()),
                forall|k: int| 0 <= k < i ==> #[trigger] self@.file_extensions[k] != wanted@,
            decreases self.file_extensions@.len() - i,
        {
            if text::same_text(self.file_extensions[i].as_str(), wanted.as_str()) {
                proof {
                    assert(self@.file_extensions[i as int] == wanted@);
                }
                return true;
            }
            i += 1;
        }
        false
    }

    /// The language of a file.
    pub fn language_id_for_path(&self, path: &str) -> (language: String)
        ensures
            language@ == self@.language_of(path@),
    {
        if let Some(extension) = paths::extension(path) {
            let wanted = normalize_extension(extension.as_str());
            let ghost pairs = self@.extension_language_ids;
            let mut n: usize = self.extension_language_ids.len();
            while n > 0
                invariant
                    n <= self.extension_language_ids@.len(),
                    pairs == self@.extension_language_ids,
                    paths::extension_of(path@) is Some,
                    wanted@ == plain_extension(paths::extension_of(path@).unwrap()),
                    language_for(pairs, wanted@, pairs.len() as int) == language_for(
                        pairs,
                        wanted@,
                        n as int,
                    ),
                decreases n,
            {
                proof {
                    assert(pairs[n - 1] == (
                        self.extension_language_ids@[n - 1].0@,
                        self.extension_language_ids@[n - 1].1@,
                    ));
                }
                if text::same_text(
                    self.extension_language_ids[n - 1].0.as_str(),
                    wanted.as_str(),
                ) {
                    return self.extension_language_ids[n - 1].1.clone();
                }
                n -= 1;
            }
        }
        self.default_language_id.clone()
    }

    /// The command that starts the server, given what the environment says.
    pub fn resolved_command(&self, variable: Option<&str>) -> (command: String)
        ensures
            command@ == self@.command(text::opt_str(variable)),
    {
        if let Some(value) = variable {
            let chars = text::chars_of(value);
            if !text::blank(&chars) {
                return text::text_of(text::trim(&chars));
            }
        }
        self.default_command.clone()
    }

    /// The arguments of the server, given the words that the environment says.
    pub fn chosen_args(&self, words: Option<Vec<String>>) -> (args: Vec<String>)
        ensures
            text::texts(args@) == self@.args(opt_texts(words)),
    {
        match words {
            Some(list) => list,
            None => text::clone_texts(&self.default_args),
        }
    }

    /// The arguments of the server, given what the environment says.
    pub fn resolved_args(&self, variable: Option<&str>) -> (args: Vec<String>)
        ensures
            text::texts(args@) == self@.args(argument_words(text::opt_str(variable))),
    {
        let words = match variable {
            Some(value) => split_command_line(value),
            None => None,
        };
        self.chosen_args(words)
    }

    /// How to start the server, given what the environment says.
    pub fn resolve_server_config(
        &self,
        command_variable: Option<&str>,
        args_variable: Option<&str>,
    ) -> (r: Result<LspServerConfig, String>)
        ensures
            match r {
                Ok(config) => !text::is_blank(self@.command(text::opt_str(command_variable)))
                    && config.command@ == self@.command(text::opt_str(command_variable))
                    && text::texts(config.args@) == self@.args(
                    argument_words(text::opt_str(args_variable)),
                ),
                Err(message) => text::is_blank(self@.command(text::opt_str(command_variable)))
                    && message@ == "language server command is empty for provider "@ + self@.id,
            },
    {
        let command = self.resolved_command(command_variable);
        if text::blank(&text::chars_of(command.as_str())) {
            let mut message = "language server command is empty for provider ".to_string();
            message.append(self.id.as_str());
            return Err(message);
        }
        Ok(LspServerConfig { command, args: self.resolved_args(args_variable) })
    }

    /// A copy of the provider.
    pub fn duplicate(&self) -> (out: LspProvider)
        ensures
            out@ == self@,
    {
        let mut pairs: Vec<(String, String)> = Vec::new();
        let mut i: usize = 0;
        while i < self.extension_language_ids.len()
            invariant
                i <= self.extension_language_ids@.len(),
                pairs@.len() == i,
                forall|k: int|
                    0 <= k < i ==> (#[trigger] pairs@[k]).0@ == self.extension_language_ids@[k].0@
                        && pairs@[k].1@ == self.extension_language_ids@[k].1@,
            decreases self.extension_language_ids@.len() - i,
        {
            let key = self.extension_language_ids[i].0.clone();
            let value = self.extension_language_ids[i].1.clone();
            pairs.push((key, value));
            i += 1;
        }
        proof {
            assert(pair_views(pairs@) =~= pair_views(self.extension_language_ids@));
        }
        LspProvider {
            id: self.id.clone(),
            source: self.source.clone(),
            aliases: text::clone_texts(&self.aliases),
            file_extensions: text::clone_texts(&self.file_extensions),
            workspace_markers: text::clone_texts(&self.workspace_markers),
            default_command: self.default_command.clone(),
            default_args: text::clone_texts(&self.default_args),
            command_env_var: text::clone_opt(&self.command_env_var),
            args_env_var: text::clone_opt(&self.args_env_var),
            default_language_id: self.default_language_id.clone(),
            extension_language_ids: pairs,
        }
    }
}

// ---------------------------------------------------------------------------
// The registry.

/// The views of string slices.
pub open spec fn str_views(items: Seq<&str>) -> Seq<Seq<char>> {
    Seq::new(items.len(), |i: int| items[i]@)
}

/// The views of pairs of string slices.
pub open spec fn str_pair_views(items: Seq<(&str, &str)>) -> Seq<(Seq<char>, Seq<char>)> {
    Seq::new(items.len(), |i: int| (items[i].0@, items[i].1@))
}

/// A provider that comes with the tool.
pub open spec fn builtin_view(
    id: Seq<char>,
    aliases: Seq<Seq<char>>,
    file_extensions: Seq<Seq<char>>,
    workspace_markers: Seq<Seq<char>>,
    command: Seq<char>,
    args: Seq<Seq<char>>,
    command_env_var: Seq<char>,
    args_env_var: Seq<char>,
    languages: Seq<(Seq<char>, Seq<char>)>,
) -> ProviderView {
    ProviderView {
        id,
        source: "builtin"@,
        aliases,
        file_extensions: plain_extensions(file_extensions),
        workspace_markers,
        default_command: command,
        default_args: args,
        command_env_var: Some(command_env_var),
        args_env_var: Some(args_env_var),
        default_language_id: id,
        extension_language_ids: plain_keys(languages),
    }
}

/// The providers that come with the tool.
pub open spec fn builtin_providers() -> Seq<ProviderView> {
    seq![
        builtin_view(
            "python"@,
            seq!["py"@],
            seq!["py"@, "pyi"@],
            seq!["pyproject.toml"@, "setup.py"@, "setup.cfg"@, "requirements.txt"@],
            "pyright-langserver"@,
            seq!["--stdio"@],
            "CODEX_LSP_PYTHON_COMMAND"@,
            "CODEX_LSP_PYTHON_ARGS"@,
            seq![],
        ),
        builtin_view(
            "go"@,
            seq!["golang"@],
            seq!["go"@],
            seq!["go.mod"@, "go.work"@],
            "gopls"@,
            seq!["serve"@],
            "CODEX_LSP_GO_COMMAND"@,
            "CODEX_LSP_GO_ARGS"@,
            seq![],
        ),
        builtin_view(
            "rust"@,
            seq!["rs"@],
            seq!["rs"@],
            seq!["Cargo.toml"@],
            "rust-analyzer"@,
            seq![],
            "CODEX_LSP_RUST_COMMAND"@,
            "CODEX_LSP_RUST_ARGS"@,
            seq![],
        ),
        builtin_view(
            "typescript"@,
            seq!["ts"@, "javascript"@, "js"@],
            seq!["ts"@, "tsx"@, "js"@, "jsx"@, "mjs"@, "cjs"@, "mts"@, "cts"@],
            seq!["package.json"@, "tsconfig.json"@, "jsconfig.json"@],
            "typescript-language-server"@,
            seq!["--stdio"@],
            "CODEX_LSP_TYPESCRIPT_COMMAND"@,
            "CODEX_LSP_TYPESCRIPT_ARGS"@,
            seq![
                ("tsx"@, "typescriptreact"@),
                ("jsx"@, "javascriptreact"@),
                ("js"@, "javascript"@),
                ("mjs"@, "javascript"@),
                ("cjs"@, "javascript"@),
            ],
        ),
    ]
}

fn owned(items: &[&str]) -> (out: Vec<String>)
    ensures
        text::texts(out@) == str_views(items@),
{
    let mut out: Vec<String> = Vec::new();
    let mut i: usize = 0;
    while i < items.len()
        invariant
            i <= items@.len(),
            out@.len() == i,
            forall|k: int| 0 <= k < i ==> (#[trigger] out@[k])@ == items@[k]@,
        decreases items@.len() - i,
    {
        out.push(items[i].to_string());
        i += 1;
    }
    proof {
        assert(text::texts(out@) =~= str_views(items@));
    }
    out
}

fn owned_pairs(items: &[(&str, &str)]) -> (out: Vec<(String, String)>)
    ensures
        pair_views(out@) == str_pair_views(items@),
{
    let mut out: Vec<(String, String)> = Vec::new();
    let mut i: usize = 0;
    while i < items.len()
        invariant
            i <= items@.len(),
            out@.len() == i,
            forall|k: int|
                0 <= k < i ==> (#[trigger] out@[k]).0@ == items@[k].0@ && out@[k].1@
                    == items@[k].1@,
        decreases items@.len() - i,
    {
        let (key, value) = items[i];
        out.push((key.to_string(), value.to_string()));
        i += 1;
    }
    proof {
        assert(pair_views(out@) =~= str_pair_views(items@));
    }
    out
}

fn builtin(
    id: &str,
    aliases: &[&str],
    file_extensions: &[&str],
    workspace_markers: &[&str],
    default_command: &str,
    default_args: &[&str],
    command_env_var: &str,
    args_env_var: &str,
    extension_language_ids: &[(&str, &str)],
) -> (provider: LspProvider)
    ensures
        provider@ == builtin_view(
            id@,
            str_views(aliases@),
            str_views(file_extensions@),
            str_views(workspace_markers@),
            default_command@,
            str_views(default_args@),
            command_env_var@,
            args_env_var@,
            str_pair_views(extension_language_ids@),
        ),
{
    LspProvider {
        id: id.to_string(),
        source: "builtin".to_string(),
        aliases: owned(aliases),
        file_extensions: normalize_extensions(&owned(file_extensions)),
        workspace_markers: owned(workspace_markers),
        default_command: default_command.to_string(),
        default_args: owned(default_args),
        command_env_var: Some(command_env_var.to_string()),
        args_env_var: Some(args_env_var.to_string()),
        default_language_id: id.to_string(),
        extension_language_ids: normalize_keys(&owned_pairs(extension_language_ids)),
    }
}

/// The providers that come with the tool.
pub fn builtin_lsp_providers() -> (out: Vec<LspProvider>)
    ensures
        provider_views(out@) == builtin_providers(),
{
    let no_args: [&str; 0] = [];
    let no_languages: [(&str, &str); 0] = [];
    let python_extensions: [&str; 2] = ["py", "pyi"];
    let python_markers: [&str; 4] = ["pyproject.toml", "setup.py", "setup.cfg", "requirements.txt"];
    let go_markers: [&str; 2] = ["go.mod", "go.work"];
    let ts_aliases: [&str; 3] = ["ts", "javascript", "js"];
    let ts_extensions: [&str; 8] = ["ts", "tsx", "js", "jsx", "mjs", "cjs", "mts", "cts"];
    let ts_markers: [&str; 3] = ["package.json", "tsconfig.json", "jsconfig.json"];
    let ts_languages: [(&str, &str); 5] = [
        ("tsx", "typescriptreact"),
        ("jsx", "javascriptreact"),
        ("js", "javascript"),
        ("mjs", "javascript"),
        ("cjs", "javascript"),
    ];
    let mut out: Vec<LspProvider> = Vec::new();
    out.push(
        builtin(
            "python",
            &["py"],
            &python_extensions,
            &python_markers,
            "pyright-langserver",
            &["--stdio"],
            "CODEX_LSP_PYTHON_COMMAND",
            "CODEX_LSP_PYTHON_ARGS",
            &no_languages,
        ),
    );
    out.push(
        builtin(
            "go",
            &["golang"],
            &["go"],
            &go_markers,
            "gopls",
            &["serve"],
            "CODEX_LSP_GO_COMMAND",
            "CODEX_LSP_GO_ARGS",
            &no_languages,
        ),
    );
    out.push(
        builtin(
            "rust",
            &["rs"],
            &["rs"],
            &["Cargo.toml"],
            "rust-analyzer",
            &no_args,
            "CODEX_LSP_RUST_COMMAND",
            "CODEX_LSP_RUST_ARGS",
            &no_languages,
        ),
    );
    out.push(
        builtin(
            "typescript",
            &ts_aliases,
            &ts_extensions,
            &ts_markers,
            "typescript-language-server",
            &["--stdio"],
            "CODEX_LSP_TYPESCRIPT_COMMAND",
            "CODEX_LSP_TYPESCRIPT_ARGS",
            &ts_languages,
        ),
    );
    proof {
        let wanted = builtin_providers();
        assert(out@[0]@ =~~= wanted[0]);
        assert(out@[1]@ =~~= wanted[1]);
        assert(out@[2]@ =~~= wanted[2]);
        assert(out@[3]@ =~~= wanted[3]);
        assert(provider_views(out@) =~= wanted);
    }
    out
}

/// The last provider with the given id, among the first `n`.
pub open spec fn last_with_id(providers: Seq<ProviderView>, id: Seq<char>, n: int) -> Option<
    ProviderView,
>
    decreases n,
{
    if n <= 0 || n > providers.len() {
        None
    } else if providers[n - 1].id == id {
        Some(providers[n - 1])
    } else {
        last_with_id(providers, id, n - 1)
    }
}

/// The ids of providers.
pub open spec fn ids(providers: Seq<ProviderView>) -> Seq<Seq<char>> {
    Seq::new(providers.len(), |i: int| providers[i].id)
}

/// Whether a registry is made of a list of providers: in the order of their
/// ids, for each id the last one of the list.
pub open spec fn registry_of(registry: Seq<ProviderView>, providers: Seq<ProviderView>) -> bool {
    &&& text_order::strictly_in_order(ids(registry))
    &&& forall|i: int|
        0 <= i < registry.len() ==> last_with_id(
            providers,
            (#[trigger] registry[i]).id,
            providers.len() as int,
        ) == Some(registry[i])
    &&& forall|k: int|
        0 <= k < providers.len() ==> ids(registry).contains((#[trigger] providers[k]).id)
}

proof fn lemma_last_with_id_prefix(providers: Seq<ProviderView>, more: ProviderView, id: Seq<char>, n: int)
    requires
        0 <= n <= providers.len(),
    ensures
        last_with_id(providers.push(more), id, n) == last_with_id(providers, id, n),
    decreases n,
{
    if n > 0 {
        assert(providers.push(more)[n - 1] == providers[n - 1]);
        lemma_last_with_id_prefix(providers, more, id, n - 1);
    }
}

fn place_provider(registry: &mut Vec<LspProvider>, provider: LspProvider, given: Ghost<
    Seq<ProviderView>,
>)
    requires
        registry_of(provider_views(old(registry)@), given@),
    ensures
        registry_of(provider_views(final(registry)@), given@.push(provider@)),
{
    let ghost before = provider_views(registry@);
    let ghost added = provider@;
    let ghost all = given@.push(added);
    let mut i: usize = 0;
    while i < registry.len() && !text_order::text_not_after(
        provider.id.as_str(),
        registry[i].id.as_str(),
    )
        invariant
            i <= registry@.len(),
            before == provider_views(registry@),
            added == provider@,
            forall|k: int|
                0 <= k < i ==> !text_order::not_after(added.id, (#[trigger] before[k]).id),
        decreases registry@.len() - i,
    {
        i += 1;
    }
    proof {
        assert(all[all.len() - 1] == added);
        assert(last_with_id(all, added.id, all.len() as int) == Some(added));
        assert forall|id: Seq<char>| id != added.id implies #[trigger] last_with_id(
            all,
            id,
            all.len() as int,
        ) == last_with_id(given@, id, given@.len() as int) by {
            lemma_last_with_id_prefix(given@, added, id, given@.len() as int);
        }
        assert forall|k: int| 0 <= k < i implies text_order::before(
            (#[trigger] before[k]).id,
            added.id,
        ) by {
            text_order::lemma_total(before[k].id, added.id);
        }
        assert forall|p: int, q: int| 0 <= p < q < before.len() implies text_order::before(
            (#[trigger] before[p]).id,
            (#[trigger] before[q]).id,
        ) by {
            assert(ids(before)[p] == before[p].id);
            assert(ids(before)[q] == before[q].id);
        }
    }
    if i < registry.len() && text::same_text(provider.id.as_str(), registry[i].id.as_str()) {
        registry.set(i, provider);
        proof {
            let after = provider_views(registry@);
            assert(after =~= before.update(i as int, added));
            assert(before[i as int].id == added.id);
            assert(ids(after) =~= ids(before));
            assert forall|k: int| 0 <= k < after.len() implies last_with_id(
                all,
                (#[trigger] after[k]).id,
                all.len() as int,
            ) == Some(after[k]) by {
                if k != i {
                    assert(after[k] == before[k]);
                    assert(text_order::before(before[k].id, before[i as int].id)
                        || text_order::before(before[i as int].id, before[k].id));
                }
            }
            assert forall|k: int| 0 <= k < all.len() implies ids(after).contains(
                (#[trigger] all[k]).id,
            ) by {
                if k < given@.len() {
                    assert(all[k] == given@[k]);
                } else {
                    assert(ids(after)[i as int] == added.id);
                }
            }
        }
    } else {
        proof {
            if i < before.len() {
                assert(text_order::before(added.id, before[i as int].id));
            }
            assert forall|k: int| i <= k < before.len() implies text_order::before(
                added.id,
                (#[trigger] before[k]).id,
            ) by {
                if k > i {
                    assert(text_order::before(before[i as int].id, before[k].id));
                    text_order::lemma_before_transitive(
                        added.id,
                        before[i as int].id,
                        before[k].id,
                    );
                }
            }
        }
        registry.insert(i, provider);
        proof {
            let after = provider_views(registry@);
            assert(after =~= before.insert(i as int, added));
            assert forall|p: int, q: int| 0 <= p < q < ids(after).len() implies text_order::before(
                #[trigger] ids(after)[p],
                #[trigger] ids(after)[q],
            ) by {
                let a = if p < i {
                    p
                } else {
                    p - 1
                };
                let b = if q < i {
                    q
                } else {
                    q - 1
                };
                if p == i {
                    assert(after[q] == before[b]);
                } else if q == i {
                    assert(after[p] == before[a]);
                } else {
                    assert(after[p] == before[a]);
                    assert(after[q] == before[b]);
                    assert(text_order::before(before[a].id, before[b].id));
                }
            }
            assert forall|k: int| 0 <= k < after.len() implies last_with_id(
                all,
                (#[trigger] after[k]).id,
                all.len() as int,
            ) == Some(after[k]) by {
                if k != i {
                    let a = if k < i {
                        k
                    } else {
                        k - 1
                    };
                    assert(after[k] == before[a]);
                    assert(before[a].id != added.id);
                }
            }
            assert forall|k: int| 0 <= k < all.len() implies ids(after).contains(
                (#[trigger] all[k]).id,
            ) by {
                if k < given@.len() {
                    assert(all[k] == given@[k]);
                    assert(ids(before).contains(given@[k].id));
                    let m = choose|m: int|
                        0 <= m < ids(before).len() && ids(before)[m] == given@[k].id;
                    let n = if m < i {
                        m
                    } else {
                        m + 1
                    };
                    assert(after[n] == before[m]);
                    assert(ids(after)[n] == given@[k].id);
                } else {
                    assert(ids(after)[i as int] == added.id);
                }
            }
        }
    }
}

/// Makes a registry of a list of providers. A later provider takes the place
/// of an earlier one with the same id.
pub fn load_provider_registry(providers: Vec<LspProvider>) -> (out: Vec<LspProvider>)
    ensures
        registry_of(provider_views(out@), provider_views(providers@)),
{
    let ghost all = provider_views(providers@);
    let mut left = providers;
    let mut out: Vec<LspProvider> = Vec::new();
    let ghost mut done: Seq<ProviderView> = seq![];
    while left.len() > 0
        invariant
            done + provider_views(left@) == all,
            registry_of(provider_views(out@), done),
        decreases left@.len(),
    {
        let ghost rest = provider_views(left@);
        let provider = left.remove(0);
        let ghost added = provider@;
        place_provider(&mut out, provider, Ghost(done));
        proof {
            assert(rest[0] == added);
            assert(provider_views(left@) =~= rest.skip(1));
            assert(done.push(added) + provider_views(left@) =~= done + rest);
            done = done.push(added);
        }
    }
    proof {
        assert(done + provider_views(left@) =~= done);
    }
    out
}

/// The provider for a request: the one that its language means, or else the
/// first that serves its file.
pub open spec fn chosen_provider(
    language: Option<Seq<char>>,
    path: Option<Seq<char>>,
    providers: Seq<ProviderView>,
) -> Result<int, Seq<char>> {
    let by_language = match language {
        Some(l) => first_answering(providers, l, 0),
        None => None,
    };
    let by_path = match path {
        Some(p) => first_serving(providers, p, 0),
        None => None,
    };
    match (by_language, by_path, language) {
        (Some(i), _, _) => Ok(i),
        (None, Some(i), _) => Ok(i),
        (None, None, Some(l)) => Err("no LSP provider registered for language: "@ + l),
        (None, None, None) => Err(
            "unable to infer LSP provider from path; provide language explicitly or install a provider plugin"@,
        ),
    }
}

/// The first provider, from the `i`-th on, that a language means.
pub open spec fn first_answering(providers: Seq<ProviderView>, language: Seq<char>, i: int)
    -> Option<int>
    decreases providers.len() - i,
{
    if i < 0 || i >= providers.len() {
        None
    } else if providers[i].answers_to(language) {
        Some(i)
    } else {
        first_answering(providers, language, i + 1)
    }
}

/// The first provider, from the `i`-th on, that serves a file.
pub open spec fn first_serving(providers: Seq<ProviderView>, path: Seq<char>, i: int) -> Option<int>
    decreases providers.len() - i,
{
    if i < 0 || i >= providers.len() {
        None
    } else if providers[i].serves(path) {
        Some(i)
    } else {
        first_serving(providers, path, i + 1)
    }
}

/// Chooses the provider for a request; the result is its place in the list.
#[verifier::loop_isolation(false)]
pub fn resolve_provider(language: Option<&str>, path: Option<&str>, providers: &[LspProvider]) -> (r:
    Result<usize, String>)
    ensures
        match r {
            Ok(i) => chosen_provider(
                text::opt_str(language),
                text::opt_str(path),
                provider_views(providers@),
            ) == Ok::<_, Seq<char>>(i as int) && i < providers@.len(),
            Err(message) => chosen_provider(
                text::opt_str(language),
                text::opt_str(path),
                provider_views(providers@),
            ) == Err::<int, _>(message@),
        },
{
    let ghost all = provider_views(providers@);
    if let Some(language) = language {
        let mut i: usize = 0;
        while i < providers.len()
            invariant
                i <= providers@.len(),
                all == provider_views(providers@),
                first_answering(all, language@, 0) == first_answering(all, language@, i as int),
            decreases providers@.len() - i,
        {
            if providers[i].matches_language_hint(language) {
                return Ok(i);
            }
            i += 1;
        }
    }
    if let Some(path) = path {
        let mut i: usize = 0;
        while i < providers.len()
            invariant
                i <= providers@.len(),
                all == provider_views(providers@),
                first_serving(all, path@, 0) == first_serving(all, path@, i as int),
            decreases providers@.len() - i,
        {
            if providers[i].supports_path(path) {
                return Ok(i);
            }
            i += 1;
        }
    }
    if let Some(language) = language {
        let mut message = "no LSP provider registered for language: ".to_string();
        message.append(language);
        return Err(message);
    }
    Err(
        "unable to infer LSP provider from path; provide language explicitly or install a provider plugin".to_string(),
    )
}

// ---------------------------------------------------------------------------
// Where a server runs.

/// The path of a request, relative to the working directory.
pub fn requested_path(cwd: &str, path: Option<&str>) -> (out: Option<String>)
    ensures
        text::opt_text(out) == match text::opt_str(path) {
            Some(p) => Some(paths::joined(cwd@, p)),
            None => None,
        },
{
    match path {
        Some(p) => Some(paths::join(cwd, p)),
        None => None,
    }
}

/// The directory that a request is about: that of its file, or the working
/// directory.
pub open spec fn request_directory(cwd: Seq<char>, path: Option<Seq<char>>, is_dir: bool) -> Result<
    Seq<char>,
    Seq<char>,
> {
    match path {
        None => Ok(cwd),
        Some(p) => if is_dir {
            Ok(p)
        } else {
            match paths::parent_of(p) {
                Some(up) => Ok(up),
                None => Err("file has no parent directory"@),
            }
        },
    }
}

/// The directory that a request is about.
pub fn provider_registry_base(cwd: &str, path: Option<&str>, is_dir: bool) -> (r: Result<
    String,
    String,
>)
    ensures
        (match r {
            Ok(dir) => Ok(dir@),
            Err(message) => Err(message@),
        }) == request_directory(cwd@, text::opt_str(path), is_dir),
{
    match path {
        None => Ok(cwd.to_string()),
        Some(p) => if is_dir {
            Ok(p.to_string())
        } else {
            match paths::parent(p) {
                Some(up) => Ok(up),
                None => Err("file has no parent directory".to_string()),
            }
        },
    }
}

proof fn lemma_parent_shorter(p: Seq<char>)
    ensures
        match paths::parent_of(p) {
            Some(up) => up.len() < p.len() && paths::part_spans(p, 0).len() > 0,
            None => true,
        },
{
    paths::lemma_part_spans(p, 0);
    let spans = paths::part_spans(p, 0);
    if spans.len() > 0 {
        let last = spans[spans.len() - 1];
        assert(last.0 < last.1 <= p.len());
        if spans.len() > 1 {
            assert(spans[spans.len() - 2].1 < last.0);
        } else if paths::absolute(p) {
            paths::lemma_first_part(p);
        }
    }
}

/// A directory and those above it.
pub open spec fn ancestors(dir: Seq<char>) -> Seq<Seq<char>>
    decreases dir.len(),
{
    match paths::parent_of(dir) {
        Some(up) => if up.len() < dir.len() {
            seq![dir] + ancestors(up)
        } else {
            seq![dir]
        },
        None => seq![dir],
    }
}

/// A directory and those above it.
pub fn path_ancestors(dir: &str) -> (out: Vec<String>)
    ensures
        text::texts(out@) == ancestors(dir@),
{
    let mut out: Vec<String> = Vec::new();
    let mut current = dir.to_string();
    let ghost all = ancestors(dir@);
    proof {
        assert(text::texts(out@) + ancestors(current@) =~= all);
    }
    loop
        invariant
            all == ancestors(dir@),
            text::texts(out@) + ancestors(current@) == all,
        decreases current@.len(),
    {
        let ghost before = text::texts(out@);
        let ghost here = current@;
        let up = paths::parent(current.as_str());
        out.push(current);
        proof {
            assert(text::texts(out@) =~= before.push(here));
            lemma_parent_shorter(here);
        }
        match up {
            Some(next) => {
                proof {
                    assert(text::texts(out@) + ancestors(next@) =~= before + ancestors(here));
                }
                current = next;
            },
            None => {
                proof {
                    assert(text::texts(out@) =~= before + ancestors(here));
                }
                return out;
            },
        }
    }
}

/// The files whose presence makes a directory the root of a workspace.
pub open spec fn marker_paths(dir: Seq<char>, markers: Seq<Seq<char>>) -> Seq<Seq<char>> {
    let all = markers + seq![".git"@, ".hg"@, ".svn"@];
    Seq::new(all.len(), |i: int| paths::joined(dir, all[i]))
}

/// The files whose presence makes a directory the root of a workspace.
pub fn workspace_marker_paths(dir: &str, provider: &LspProvider) -> (out: Vec<String>)
    ensures
        text::texts(out@) == marker_paths(dir@, provider@.workspace_markers),
{
    let mut names = text::clone_texts(&provider.workspace_markers);
    let ghost own = text::texts(names@);
    names.push(".git".to_string());
    names.push(".hg".to_string());
    names.push(".svn".to_string());
    let ghost all = own + seq![".git"@, ".hg"@, ".svn"@];
    proof {
        assert(text::texts(names@) =~= all);
    }
    let mut out: Vec<String> = Vec::new();
    let mut i: usize = 0;
    while i < names.len()
        invariant
            i <= names@.len(),
            all == text::texts(names@),
            out@.len() == i,
            forall|k: int| 0 <= k < i ==> (#[trigger] out@[k])@ == paths::joined(dir@, all[k]),
        decreases names@.len() - i,
    {
        out.push(paths::join(dir, names[i].as_str()));
        i += 1;
    }
    proof {
        assert(text::texts(out@) =~= marker_paths(dir@, provider@.workspace_markers));
    }
    out
}

/// The root of a workspace: the nearest directory with a marker, or else the
/// start. `marked` tells of each directory, nearest first, whether it has one.
pub open spec fn root_among(start: Seq<char>, dirs: Seq<Seq<char>>, marked: Seq<bool>, i: int) -> Seq<
    char,
>
    decreases dirs.len() - i,
{
    if i < 0 || i >= dirs.len() || i >= marked.len() {
        start
    } else if marked[i] {
        dirs[i]
    } else {
        root_among(start, dirs, marked, i + 1)
    }
}

/// The root of a workspace.
pub fn find_workspace_root(start: &str, marked: &[bool]) -> (root: String)
    ensures
        root@ == root_among(start@, ancestors(start@), marked@, 0),
{
    let dirs = path_ancestors(start);
    let ghost all = text::texts(dirs@);
    let mut i: usize = 0;
    while i < dirs.len() && i < marked.len()
        invariant
            i <= dirs@.len(),
            i <= marked@.len(),
            all == text::texts(dirs@),
            all == ancestors(start@),
            root_among(start@, all, marked@, 0) == root_among(start@, all, marked@, i as int),
        decreases dirs@.len() - i,
    {
        if marked[i] {
            proof {
                assert(all[i as int] == dirs@[i as int]@);
            }
            return dirs[i].clone();
        }
        i += 1;
    }
    start.to_string()
}

/// Whether a command is the stand-in for rust-analyzer that rustup puts among
/// the cargo commands.
pub open spec fn is_proxy(command: Seq<char>, cargo_bin_dirs: Seq<Seq<char>>) -> bool {
    &&& paths::name_of(command) == Some("rust-analyzer"@) || paths::name_of(command) == Some(
        "rust-analyzer.exe"@,
    )
    &&& exists|i: int|
        0 <= i < cargo_bin_dirs.len() && paths::below(command, #[trigger] cargo_bin_dirs[i])
}

/// Whether a command is the stand-in for rust-analyzer.
#[verifier::loop_isolation(false)]
pub fn is_rust_analyzer_proxy(command: &str, cargo_bin_dirs: &[String]) -> (r: bool)
    ensures
        r == is_proxy(command@, text::texts(cargo_bin_dirs@)),
{
    let named: bool = match paths::file_name(command) {
        Some(name) => text::same_text(name.as_str(), "rust-analyzer") || text::same_text(
            name.as_str(),
            "rust-analyzer.exe",
        ),
        None => false,
    };
    if !named {
        return false;
    }
    let mut i: usize = 0;
    while i < cargo_bin_dirs.len()
        invariant
            i <= cargo_bin_dirs@.len(),
            forall|k: int|
                0 <= k < i ==> !paths::below(
                    command@,
                    #[trigger] text::texts(cargo_bin_dirs@)[k],
                ),
        decreases cargo_bin_dirs@.len() - i,
    {
        if paths::starts_with(command, cargo_bin_dirs[i].as_str()) {
            proof {
                assert(paths::below(command@, text::texts(cargo_bin_dirs@)[i as int]));
            }
            return true;
        }
        i += 1;
    }
    false
}

/// The directories with cargo commands that the environment names.
pub open spec fn cargo_directories(
    cargo_home: Option<Seq<char>>,
    user_profile: Option<Seq<char>>,
    home: Option<Seq<char>>,
) -> Seq<Seq<char>> {
    let first = match cargo_home {
        Some(dir) => seq![paths::joined(dir, "bin"@)],
        None => seq![],
    };
    let second = match user_profile {
        Some(dir) => seq![paths::joined(paths::joined(dir, ".cargo"@), "bin"@)],
        None => seq![],
    };
    let third = match home {
        Some(dir) => seq![paths::joined(paths::joined(dir, ".cargo"@), "bin"@)],
        None => seq![],
    };
    paths::deduped(first + second + third)
}

/// The directories with cargo commands that the environment names, each once.
pub fn cargo_bin_dirs(cargo_home: Option<&str>, user_profile: Option<&str>, home: Option<&str>)
    -> (out: Vec<String>)
    ensures
        text::texts(out@) == cargo_directories(
            text::opt_str(cargo_home),
            text::opt_str(user_profile),
            text::opt_str(home),
        ),
{
    let mut dirs: Vec<String> = Vec::new();
    if let Some(dir) = cargo_home {
        dirs.push(paths::join(dir, "bin"));
    }
    if let Some(dir) = user_profile {
        dirs.push(paths::join(paths::join(dir, ".cargo").as_str(), "bin"));
    }
    if let Some(dir) = home {
        dirs.push(paths::join(paths::join(dir, ".cargo").as_str(), "bin"));
    }
    proof {
        let first = match text::opt_str(cargo_home) {
            Some(dir) => seq![paths::joined(dir, "bin"@)],
            None => seq![],
        };
        let second = match text::opt_str(user_profile) {
            Some(dir) => seq![paths::joined(paths::joined(dir, ".cargo"@), "bin"@)],
            None => seq![],
        };
        let third = match text::opt_str(home) {
            Some(dir) => seq![paths::joined(paths::joined(dir, ".cargo"@), "bin"@)],
            None => seq![],
        };
        assert(text::texts(dirs@) =~= first + second + third);
    }
    paths::dedupe_paths(&dirs)
}

/// The directories with provider plugins.
pub open spec fn plugin_directories(
    cwd: Seq<char>,
    codex_home: Seq<char>,
    extra: Seq<Seq<char>>,
) -> Seq<Seq<char>> {
    paths::deduped(
        seq![
            paths::joined(cwd, ".codex/lsp-providers"@),
            paths::joined(codex_home, "lsp-providers"@),
        ] + extra,
    )
}

/// The directories with provider plugins: that of the workspace, that of the
/// user and those that the environment names, each once.
pub fn provider_directories(cwd: &str, codex_home: &str, extra: &[String]) -> (out: Vec<String>)
    ensures
        text::texts(out@) == plugin_directories(cwd@, codex_home@, text::texts(extra@)),
{
    let mut dirs: Vec<String> = Vec::new();
    dirs.push(paths::join(cwd, ".codex/lsp-providers"));
    dirs.push(paths::join(codex_home, "lsp-providers"));
    let ghost own = text::texts(dirs@);
    let mut i: usize = 0;
    proof {
        assert(own =~= seq![
            paths::joined(cwd@, ".codex/lsp-providers"@),
            paths::joined(codex_home@, "lsp-providers"@),
        ]);
        assert(text::texts(dirs@) =~= own + text::texts(extra@).take(0));
    }
    while i < extra.len()
        invariant
            i <= extra@.len(),
            text::texts(dirs@) == own + text::texts(extra@).take(i as int),
        decreases extra@.len() - i,
    {
        let ghost before = text::texts(dirs@);
        dirs.push(extra[i].clone());
        proof {
            assert(text::texts(dirs@) =~= before.push(extra@[i as int]@));
            assert(text::texts(dirs@) =~= own + text::texts(extra@).take(i + 1));
        }
        i += 1;
    }
    proof {
        assert(text::texts(extra@).take(extra@.len() as int) =~= text::texts(extra@));
    }
    paths::dedupe_paths(&dirs)
}

/// Whether a file holds a provider plugin.
pub open spec fn is_plugin_file(path: Seq<char>) -> bool {
    match paths::extension_of(path) {
        Some(extension) => text::lowered(extension) == text::lowered("json"@),
        None => false,
    }
}

/// The files of a directory that hold provider plugins, in the order of their
/// names.
pub fn plugin_files(files: &[String]) -> (out: Vec<String>)
    ensures
        text_order::in_order(text::texts(out@)),
        text::texts(out@).to_multiset() == text::texts(files@).filter(
            |p: Seq<char>| is_plugin_file(p),
        ).to_multiset(),
{
    let mut chosen: Vec<String> = Vec::new();
    let ghost all = text::texts(files@);
    let ghost keep = |p: Seq<char>| is_plugin_file(p);
    let mut i: usize = 0;
    proof {
        assert(all.take(0).filter(keep) =~= text::texts(chosen@)) by {
            reveal(Seq::filter);
        }
    }
    while i < files.len()
        invariant
            i <= files@.len(),
            all == text::texts(files@),
            keep == (|p: Seq<char>| is_plugin_file(p)),
            text::texts(chosen@) == all.take(i as int).filter(keep),
        decreases files@.len() - i,
    {
        let ghost before = text::texts(chosen@);
        proof {
            assert(all.take(i + 1).drop_last() =~= all.take(i as int));
            assert(all.take(i + 1).last() == files@[i as int]@);
            reveal(Seq::filter);
        }
        let wanted: bool = match paths::extension(files[i].as_str()) {
            Some(extension) => text::same_chars(
                &text::lower(&text::chars_of(extension.as_str())),
                &text::lower(&text::chars_of("json")),
            ),
            None => false,
        };
        if wanted {
            chosen.push(files[i].clone());
            proof {
                assert(text::texts(chosen@) =~= before.push(files@[i as int]@));
            }
        }
        i += 1;
    }
    proof {
        assert(all.take(files@.len() as int) =~= all);
    }
    text_order::sort_texts(&chosen)
}

// ---------------------------------------------------------------------------
// The state of providers.

/// What is known about a provider.
#[derive(Debug)]
pub struct LspProviderStatus {
    pub id: String,
    pub source: String,
    pub file_extensions: Vec<String>,
    pub command: String,
    pub command_available: bool,
    pub command_path: Option<String>,
    pub status: String,
    pub error: Option<String>,
}

/// What an [`LspProviderStatus`] stands for.
#[verifier::ext_equal]
pub ghost struct StatusView {
    pub id: Seq<char>,
    pub source: Seq<char>,
    pub file_extensions: Seq<Seq<char>>,
    pub command: Seq<char>,
    pub command_available: bool,
    pub command_path: Option<Seq<char>>,
    pub status: Seq<char>,
    pub error: Option<Seq<char>>,
}

impl View for LspProviderStatus {
    type V = StatusView;

    open spec fn view(&self) -> StatusView {
        StatusView {
            id: self.id@,
            source: self.source@,
            file_extensions: text::texts(self.file_extensions@),
            command: self.command@,
            command_available: self.command_available,
            command_path: text::opt_text(self.command_path),
            status: self.status@,
            error: text::opt_text(self.error),
        }
    }
}

/// What the machine says about a provider's server.
pub struct ProviderFacts {
    /// What the environment names as its command.
    pub command_variable: Option<String>,
    /// Where its command was found.
    pub command_path: Option<String>,
    /// What came of starting it.
    pub start: StartOutcome,
}

/// What came of starting a server.
pub enum StartOutcome {
    NotTried,
    Started,
    Failed(String),
}

/// The state of a provider whose server is not started.
pub open spec fn listed_status(provider: ProviderView, facts: ProviderFacts) -> StatusView {
    let command = provider.command(text::opt_text(facts.command_variable));
    StatusView {
        id: provider.id,
        source: provider.source,
        file_extensions: provider.file_extensions,
        command: if text::is_blank(command) {
            provider.default_command
        } else {
            command
        },
        command_available: facts.command_path is Some,
        command_path: text::opt_text(facts.command_path),
        status: if facts.command_path is Some {
            "configured"@
        } else {
            "unavailable"@
        },
        error: None,
    }
}

/// Whether there is a server of a provider to start: its command was found and
/// is not blank.
pub open spec fn can_start(provider: ProviderView, facts: ProviderFacts) -> bool {
    facts.command_path is Some && !text::is_blank(
        provider.command(text::opt_text(facts.command_variable)),
    )
}

/// Whether the server of a provider was tried, if there is one to start.
pub open spec fn was_tried(provider: ProviderView, facts: ProviderFacts) -> bool {
    can_start(provider, facts) ==> !(facts.start is NotTried)
}

/// The state of a provider whose server was tried.
pub open spec fn probed_status(provider: ProviderView, facts: ProviderFacts) -> StatusView {
    let command = provider.command(text::opt_text(facts.command_variable));
    let found = facts.command_path is Some;
    let (status, error) = if !found {
        ("unavailable"@, Some("language server command not found"@))
    } else if text::is_blank(command) {
        ("error"@, Some("language server command is empty for provider "@ + provider.id))
    } else {
        match facts.start {
            StartOutcome::Failed(message) => ("failed"@, Some(message@)),
            _ => ("ready"@, None),
        }
    };
    StatusView {
        id: provider.id,
        source: provider.source,
        file_extensions: provider.file_extensions,
        command,
        command_available: found,
        command_path: text::opt_text(facts.command_path),
        status,
        error,
    }
}

/// The views of a list of states.
pub open spec fn status_views(list: Seq<LspProviderStatus>) -> Seq<StatusView> {
    Seq::new(list.len(), |i: int| list[i]@)
}

fn opt_as_str(value: &Option<String>) -> (r: Option<&str>)
    ensures
        text::opt_str(r) == text::opt_text(*value),
{
    match value {
        Some(s) => Some(s.as_str()),
        None => None,
    }
}

fn list_single_provider_status(provider: &LspProvider, facts: &ProviderFacts) -> (status:
    LspProviderStatus)
    ensures
        status@ == listed_status(provider@, *facts),
{
    let resolved = provider.resolved_command(opt_as_str(&facts.command_variable));
    let command = if text::blank(&text::chars_of(resolved.as_str())) {
        provider.default_command.clone()
    } else {
        resolved
    };
    let available: bool = facts.command_path.is_some();
    LspProviderStatus {
        id: provider.id.clone(),
        source: provider.source.clone(),
        file_extensions: text::clone_texts(&provider.file_extensions),
        command,
        command_available: available,
        command_path: text::clone_opt(&facts.command_path),
        status: if available {
            "configured".to_string()
        } else {
            "unavailable".to_string()
        },
        error: None,
    }
}

/// The state of a provider whose server was tried.
pub fn probe_single_provider_status(provider: &LspProvider, facts: &ProviderFacts) -> (status:
    LspProviderStatus)
    requires
        was_tried(provider@, *facts),
    ensures
        status@ == probed_status(provider@, *facts),
{
    let command = provider.resolved_command(opt_as_str(&facts.command_variable));
    let available: bool = facts.command_path.is_some();
    let (status, error): (String, Option<String>) = if !available {
        ("unavailable".to_string(), Some("language server command not found".to_string()))
    } else if text::blank(&text::chars_of(command.as_str())) {
        let mut message = "language server command is empty for provider ".to_string();
        message.append(provider.id.as_str());
        ("error".to_string(), Some(message))
    } else {
        match &facts.start {
            StartOutcome::Failed(message) => ("failed".to_string(), Some(message.clone())),
            _ => ("ready".to_string(), None),
        }
    };
    LspProviderStatus {
        id: provider.id.clone(),
        source: provider.source.clone(),
        file_extensions: text::clone_texts(&provider.file_extensions),
        command,
        command_available: available,
        command_path: text::clone_opt(&facts.command_path),
        status,
        error,
    }
}

/// The state of every provider, without starting any server.
pub fn list_provider_status(providers: &[LspProvider], facts: &[ProviderFacts]) -> (out: Vec<
    LspProviderStatus,
>)
    requires
        providers@.len() == facts@.len(),
    ensures
        out@.len() == providers@.len(),
        forall|i: int|
            0 <= i < out@.len() ==> (#[trigger] out@[i])@ == listed_status(
                providers@[i]@,
                facts@[i],
            ),
{
    let mut out: Vec<LspProviderStatus> = Vec::new();
    let mut i: usize = 0;
    while i < providers.len()
        invariant
            i <= providers@.len(),
            providers@.len() == facts@.len(),
            out@.len() == i,
            forall|k: int|
                0 <= k < i ==> (#[trigger] out@[k])@ == listed_status(providers@[k]@, facts@[k]),
        decreases providers@.len() - i,
    {
        out.push(list_single_provider_status(&providers[i], &facts[i]));
        i += 1;
    }
    out
}

/// The state of every provider, after an attempt to start each server.
pub fn probe_provider_status(providers: &[LspProvider], facts: &[ProviderFacts]) -> (out: Vec<
    LspProviderStatus,
>)
    requires
        providers@.len() == facts@.len(),
        forall|i: int|
            0 <= i < providers@.len() ==> was_tried((#[trigger] providers@[i])@, facts@[i]),
    ensures
        out@.len() == providers@.len(),
        forall|i: int|
            0 <= i < out@.len() ==> (#[trigger] out@[i])@ == probed_status(
                providers@[i]@,
                facts@[i],
            ),
{
    let mut out: Vec<LspProviderStatus> = Vec::new();
    let mut i: usize = 0;
    while i < providers.len()
        invariant
            i <= providers@.len(),
            providers@.len() == facts@.len(),
            forall|k: int|
                0 <= k < providers@.len() ==> was_tried((#[trigger] providers@[k])@, facts@[k]),
            out@.len() == i,
            forall|k: int|
                0 <= k < i ==> (#[trigger] out@[k])@ == probed_status(providers@[k]@, facts@[k]),
        decreases providers@.len() - i,
    {
        out.push(probe_single_provider_status(&providers[i], &facts[i]));
        i += 1;
    }
    out
}

/// What is shown about the state of a provider.
pub open spec fn status_value(status: StatusView) -> json::JsonView {
    json::JsonView::object().with("id"@, json::JsonView::Str(status.id)).with(
        "source"@,
        json::JsonView::Str(status.source),
    ).with("file_extensions"@, json::strings_view(status.file_extensions)).with(
        "command_available"@,
        json::JsonView::Bool(status.command_available),
    ).with("command"@, json::JsonView::Str(status.command)).with(
        "command_path"@,
        output::text_or_null(status.command_path),
    ).with("status"@, json::JsonView::Str(status.status)).with(
        "error"@,
        output::text_or_null(status.error),
    )
}

/// The answer to a request for the providers.
pub open spec fn providers_answer(list: Seq<StatusView>, limit: int) -> json::JsonView {
    let all = Seq::new(list.len(), |i: int| status_value(list[i]));
    json::JsonView::object().with("action"@, json::JsonView::Str("providers"@)).with(
        "providers"@,
        json::JsonView::Array(
            if all.len() > limit {
                all.take(limit)
            } else {
                all
            },
        ),
    )
}

/// Builds the answer to a request for the providers.
pub fn providers_payload(list: &[LspProviderStatus], limit: usize) -> (out: Json)
    ensures
        out@ == providers_answer(status_views(list@), limit as int),
{
    let mut items: Vec<Json> = Vec::new();
    let mut i: usize = 0;
    let ghost all = Seq::new(list@.len(), |i: int| status_value(list@[i]@));
    while i < list.len() && i < limit
        invariant
            i <= list@.len(),
            i <= limit,
            all == Seq::new(list@.len(), |i: int| status_value(list@[i]@)),
            json::views(items@) == all.take(i as int),
        decreases list@.len() - i,
    {
        let ghost before = json::views(items@);
        let status = &list[i];
        items.push(
            json::object().with("id", json::string(status.id.as_str())).with(
                "source",
                json::string(status.source.as_str()),
            ).with("file_extensions", json::strings(&status.file_extensions)).with(
                "command_available",
                Json::Bool(status.command_available),
            ).with("command", json::string(status.command.as_str())).with(
                "command_path",
                json::opt_string(&status.command_path),
            ).with("status", json::string(status.status.as_str())).with(
                "error",
                json::opt_string(&status.error),
            ),
        );
        proof {
            assert(json::views(items@) =~= before.push(all[i as int]));
            assert(json::views(items@) =~= all.take(i + 1));
        }
        i += 1;
    }
    proof {
        assert(Seq::new(status_views(list@).len(), |i: int| status_value(status_views(list@)[i]))
            =~= all);
        if list@.len() <= limit {
            assert(all.take(i as int) =~= all);
        }
    }
    json::object().with("action", json::string("providers")).with("providers", json::array(items))
}

// ---------------------------------------------------------------------------
// Who serves what.

proof fn lemma_dots(dots: Seq<char>, rest: Seq<char>, i: int)
    requires
        0 <= i <= dots.len(),
        forall|k: int| 0 <= k < dots.len() ==> #[trigger] dots[k] == '.',
        rest.len() == 0 || rest[0] != '.',
    ensures
        skip_dots(dots + rest, i) == dots.len(),
    decreases dots.len() - i,
{
    if i < dots.len() {
        assert((dots + rest)[i] == dots[i]);
        lemma_dots(dots, rest, i + 1);
    } else if rest.len() > 0 {
        assert((dots + rest)[i] == rest[0]);
    }
}

/// Extensions are the same with or without dots in front, white space round them
/// and capitals.
pub proof fn extensions_go_without_dots_and_capitals(
    value: Seq<char>,
    dots: Seq<char>,
    rest: Seq<char>,
)
    requires
        text::trimmed(value) == dots + rest,
        forall|k: int| 0 <= k < dots.len() ==> #[trigger] dots[k] == '.',
        rest.len() == 0 || rest[0] != '.',
    ensures
        plain_extension(value) == text::lowered(rest),
{
    lemma_dots(dots, rest, 0);
    assert((dots + rest).skip(dots.len() as int) =~= rest);
}

/// A provider answers to its name and to its aliases, and serves the files with
/// its extensions; a file without one is served by none.
pub proof fn providers_serve_their_files(
    provider: ProviderView,
    language: Seq<char>,
    path: Seq<char>,
    extension: Seq<char>,
    i: int,
)
    ensures
        text::lowered(provider.id) == text::lowered(text::lowered(text::trimmed(language)))
            ==> provider.answers_to(language),
        0 <= i < provider.aliases.len() && text::lowered(provider.aliases[i]) == text::lowered(
            text::lowered(text::trimmed(language)),
        ) ==> provider.answers_to(language),
        text::lowered(provider.id) != text::lowered(text::lowered(text::trimmed(language))) && (
        forall|k: int|
            0 <= k < provider.aliases.len() ==> text::lowered(#[trigger] provider.aliases[k])
                != text::lowered(text::lowered(text::trimmed(language)))) ==> !provider.answers_to(
            language,
        ),
        paths::extension_of(path) is None ==> !provider.serves(path) && provider.language_of(path)
            == provider.default_language_id,
        paths::extension_of(path) == Some(extension) ==> (provider.serves(path)
            <==> provider.file_extensions.contains(plain_extension(extension))),
{
}

/// The language of a file is the one that is listed last for its extension, and
/// the provider's own where none is.
pub proof fn files_have_the_language_listed_last(
    provider: ProviderView,
    path: Seq<char>,
    extension: Seq<char>,
    k: int,
)
    requires
        paths::extension_of(path) == Some(extension),
    ensures
        ({
            let pairs = provider.extension_language_ids;
            let wanted = plain_extension(extension);
            &&& 0 <= k < pairs.len() && pairs[k].0 == wanted && (forall|j: int|
                k < j < pairs.len() ==> (#[trigger] pairs[j]).0 != wanted) ==> provider.language_of(
                path,
            ) == pairs[k].1
            &&& (forall|j: int| 0 <= j < pairs.len() ==> (#[trigger] pairs[j]).0 != wanted)
                ==> provider.language_of(path) == provider.default_language_id
        }),
{
    let pairs = provider.extension_language_ids;
    lemma_language_for(pairs, plain_extension(extension), pairs.len() as int);
}

proof fn lemma_language_for(pairs: Seq<(Seq<char>, Seq<char>)>, wanted: Seq<char>, n: int)
    requires
        0 <= n <= pairs.len(),
    ensures
        match language_for(pairs, wanted, n) {
            Some(language) => exists|k: int|
                0 <= k < n && (#[trigger] pairs[k]).0 == wanted && pairs[k].1 == language
                    && forall|j: int| k < j < n ==> (#[trigger] pairs[j]).0 != wanted,
            None => forall|j: int| 0 <= j < n ==> (#[trigger] pairs[j]).0 != wanted,
        },
    decreases n,
{
    if n > 0 {
        if pairs[n - 1].0 == wanted {
            assert(pairs[n - 1].0 == wanted);
        } else {
            lemma_language_for(pairs, wanted, n - 1);
        }
    }
}

/// A command or arguments from the environment take the place of the provider's
/// own, unless the command is blank.
pub proof fn the_environment_overrides_commands(
    provider: ProviderView,
    value: Seq<char>,
    words: Seq<Seq<char>>,
)
    ensures
        provider.command(None) == provider.default_command,
        text::is_blank(value) ==> provider.command(Some(value)) == provider.default_command,
        !text::is_blank(value) ==> provider.command(Some(value)) == text::trimmed(value),
        provider.args(None) == provider.default_args,
        provider.args(Some(words)) == words,
        argument_words(None) is None,
        argument_words(Some(value)) == shell_words(value),
{
}

/// A plugin needs a name and a command; what it gives becomes the provider, with
/// its name for the language where it gives none.
pub proof fn plugins_become_providers(plugin: LspProviderPlugin, source: Seq<char>)
    ensures
        text::is_blank(plugin.id@) ==> provider_of_plugin(plugin, source) == Err::<ProviderView, _>(
            "provider id must not be empty"@,
        ),
        !text::is_blank(plugin.id@) && text::is_blank(plugin.command@) ==> provider_of_plugin(
            plugin,
            source,
        ) == Err::<ProviderView, _>("provider command must not be empty for "@ + plugin.id@),
        !text::is_blank(plugin.id@) && !text::is_blank(plugin.command@) ==> {
            let made = provider_of_plugin(plugin, source);
            &&& made is Ok
            &&& made->Ok_0.id == plugin.id@
            &&& made->Ok_0.source == source
            &&& made->Ok_0.aliases == text::texts(plugin.aliases@)
            &&& made->Ok_0.workspace_markers == text::texts(plugin.workspace_markers@)
            &&& made->Ok_0.default_command == plugin.command@
            &&& made->Ok_0.default_args == text::texts(plugin.args@)
            &&& made->Ok_0.command_env_var == text::opt_text(plugin.command_env_var)
            &&& made->Ok_0.args_env_var == text::opt_text(plugin.args_env_var)
            &&& plugin.language_id is Some ==> made->Ok_0.default_language_id
                == plugin.language_id->Some_0@
            &&& plugin.language_id is None ==> made->Ok_0.default_language_id == plugin.id@
            &&& made->Ok_0.file_extensions.len() == plugin.file_extensions@.len()
            &&& forall|i: int|
                0 <= i < plugin.file_extensions@.len() ==> #[trigger] made->Ok_0.file_extensions[i]
                    == plain_extension(plugin.file_extensions@[i]@)
            &&& made->Ok_0.extension_language_ids.len() == plugin.extension_language_ids@.len()
            &&& forall|i: int|
                0 <= i < plugin.extension_language_ids@.len()
                    ==> #[trigger] made->Ok_0.extension_language_ids[i] == (
                    plain_extension(plugin.extension_language_ids@[i].0@),
                    plugin.extension_language_ids@[i].1@,
                )
        },
{
}

/// The providers that are always there: one for each of these languages, with
/// its command and what its workspaces hold.
pub proof fn languages_that_are_served()
    ensures
        builtin_providers().len() == 4,
        forall|i: int| 0 <= i < 4 ==> (#[trigger] builtin_providers()[i]).source == "builtin"@,
        forall|i: int|
            0 <= i < 4 ==> (#[trigger] builtin_providers()[i]).default_language_id
                == builtin_providers()[i].id,
        builtin_providers()[0].id == "python"@,
        builtin_providers()[0].aliases == seq!["py"@],
        builtin_providers()[0].default_command == "pyright-langserver"@,
        builtin_providers()[0].default_args == seq!["--stdio"@],
        builtin_providers()[0].workspace_markers == seq![
            "pyproject.toml"@,
            "setup.py"@,
            "setup.cfg"@,
            "requirements.txt"@,
        ],
        builtin_providers()[0].command_env_var == Some("CODEX_LSP_PYTHON_COMMAND"@),
        builtin_providers()[0].args_env_var == Some("CODEX_LSP_PYTHON_ARGS"@),
        builtin_providers()[0].file_extensions == seq![
            plain_extension("py"@),
            plain_extension("pyi"@),
        ],
        builtin_providers()[1].id == "go"@,
        builtin_providers()[1].aliases == seq!["golang"@],
        builtin_providers()[1].default_command == "gopls"@,
        builtin_providers()[1].default_args == seq!["serve"@],
        builtin_providers()[1].workspace_markers == seq!["go.mod"@, "go.work"@],
        builtin_providers()[1].command_env_var == Some("CODEX_LSP_GO_COMMAND"@),
        builtin_providers()[1].args_env_var == Some("CODEX_LSP_GO_ARGS"@),
        builtin_providers()[1].file_extensions == seq![plain_extension("go"@)],
        builtin_providers()[2].id == "rust"@,
        builtin_providers()[2].aliases == seq!["rs"@],
        builtin_providers()[2].default_command == "rust-analyzer"@,
        builtin_providers()[2].default_args.len() == 0,
        builtin_providers()[2].workspace_markers == seq!["Cargo.toml"@],
        builtin_providers()[2].command_env_var == Some("CODEX_LSP_RUST_COMMAND"@),
        builtin_providers()[2].args_env_var == Some("CODEX_LSP_RUST_ARGS"@),
        builtin_providers()[2].file_extensions == seq![plain_extension("rs"@)],
        builtin_providers()[3].id == "typescript"@,
        builtin_providers()[3].aliases == seq!["ts"@, "javascript"@, "js"@],
        builtin_providers()[3].default_command == "typescript-language-server"@,
        builtin_providers()[3].default_args == seq!["--stdio"@],
        builtin_providers()[3].workspace_markers == seq![
            "package.json"@,
            "tsconfig.json"@,
            "jsconfig.json"@,
        ],
        builtin_providers()[3].command_env_var == Some("CODEX_LSP_TYPESCRIPT_COMMAND"@),
        builtin_providers()[3].args_env_var == Some("CODEX_LSP_TYPESCRIPT_ARGS"@),
        builtin_providers()[3].file_extensions == seq![
            plain_extension("ts"@),
            plain_extension("tsx"@),
            plain_extension("js"@),
            plain_extension("jsx"@),
            plain_extension("mjs"@),
            plain_extension("cjs"@),
            plain_extension("mts"@),
            plain_extension("cts"@),
        ],
        builtin_providers()[3].extension_language_ids == seq![
            (plain_extension("tsx"@), "typescriptreact"@),
            (plain_extension("jsx"@), "javascriptreact"@),
            (plain_extension("js"@), "javascript"@),
            (plain_extension("mjs"@), "javascript"@),
            (plain_extension("cjs"@), "javascript"@),
        ],
{
    assert(builtin_providers()[0].file_extensions =~= seq![
        plain_extension("py"@),
        plain_extension("pyi"@),
    ]);
    assert(builtin_providers()[1].file_extensions =~= seq![plain_extension("go"@)]);
    assert(builtin_providers()[2].file_extensions =~= seq![plain_extension("rs"@)]);
    assert(builtin_providers()[3].file_extensions =~= seq![
        plain_extension("ts"@),
        plain_extension("tsx"@),
        plain_extension("js"@),
        plain_extension("jsx"@),
        plain_extension("mjs"@),
        plain_extension("cjs"@),
        plain_extension("mts"@),
        plain_extension("cts"@),
    ]);
    assert(builtin_providers()[3].extension_language_ids =~= seq![
        (plain_extension("tsx"@), "typescriptreact"@),
        (plain_extension("jsx"@), "javascriptreact"@),
        (plain_extension("js"@), "javascript"@),
        (plain_extension("mjs"@), "javascript"@),
        (plain_extension("cjs"@), "javascript"@),
    ]);
}

proof fn lemma_first_answering(providers: Seq<ProviderView>, language: Seq<char>, from: int)
    requires
        0 <= from <= providers.len(),
    ensures
        match first_answering(providers, language, from) {
            Some(i) => from <= i < providers.len() && providers[i].answers_to(language)
                && forall|j: int|
                from <= j < i ==> !(#[trigger] providers[j]).answers_to(language),
            None => forall|j: int|
                from <= j < providers.len() ==> !(#[trigger] providers[j]).answers_to(language),
        },
    decreases providers.len() - from,
{
    if from < providers.len() && !providers[from].answers_to(language) {
        lemma_first_answering(providers, language, from + 1);
    }
}

proof fn lemma_first_serving(providers: Seq<ProviderView>, path: Seq<char>, from: int)
    requires
        0 <= from <= providers.len(),
    ensures
        match first_serving(providers, path, from) {
            Some(i) => from <= i < providers.len() && providers[i].serves(path) && forall|j: int|
                from <= j < i ==> !(#[trigger] providers[j]).serves(path),
            None => forall|j: int|
                from <= j < providers.len() ==> !(#[trigger] providers[j]).serves(path),
        },
    decreases providers.len() - from,
{
    if from < providers.len() && !providers[from].serves(path) {
        lemma_first_serving(providers, path, from + 1);
    }
}

/// The provider for a request is the first that answers to the language, or else
/// the first that serves the file; where there is neither, that is told.
pub proof fn languages_decide_before_files(
    language: Option<Seq<char>>,
    path: Option<Seq<char>>,
    providers: Seq<ProviderView>,
    i: int,
)
    ensures
        ({
            let answers = |k: int|
                language is Some && providers[k].answers_to(language->Some_0);
            let serves = |k: int| path is Some && providers[k].serves(path->Some_0);
            let chosen = chosen_provider(language, path, providers);
            let none_answers = forall|k: int| 0 <= k < providers.len() ==> !#[trigger] answers(k);
            let none_serves = forall|k: int| 0 <= k < providers.len() ==> !#[trigger] serves(k);
            &&& 0 <= i < providers.len() && answers(i) && (forall|k: int|
                0 <= k < i ==> !#[trigger] answers(k)) ==> chosen == Ok::<_, Seq<char>>(i)
            &&& none_answers && 0 <= i < providers.len() && serves(i) && (forall|k: int|
                0 <= k < i ==> !#[trigger] serves(k)) ==> chosen == Ok::<_, Seq<char>>(i)
            &&& none_answers && none_serves && language is Some ==> chosen == Err::<int, _>(
                "no LSP provider registered for language: "@ + language->Some_0,
            )
            &&& language is None && none_serves ==> chosen == Err::<int, _>(
                "unable to infer LSP provider from path; provide language explicitly or install a provider plugin"@,
            )
        }),
{
    let answers = |k: int| language is Some && providers[k].answers_to(language->Some_0);
    let serves = |k: int| path is Some && providers[k].serves(path->Some_0);
    if language is Some {
        lemma_first_answering(providers, language->Some_0, 0);
        match first_answering(providers, language->Some_0, 0) {
            Some(k) => {
                assert(answers(k));
                if i < k && 0 <= i {
                    assert(!providers[i].answers_to(language->Some_0));
                }
            },
            None => {},
        }
    }
    if path is Some {
        lemma_first_serving(providers, path->Some_0, 0);
        match first_serving(providers, path->Some_0, 0) {
            Some(k) => {
                assert(serves(k));
                if i < k && 0 <= i {
                    assert(!providers[i].serves(path->Some_0));
                }
            },
            None => {},
        }
    }
}

/// A request starts from the current directory, from the directory that it
/// names, or from the directory of the file that it names.
pub proof fn requests_start_from_a_directory(cwd: Seq<char>, path: Seq<char>, up: Seq<char>)
    ensures
        request_directory(cwd, None, true) == Ok::<_, Seq<char>>(cwd),
        request_directory(cwd, None, false) == Ok::<_, Seq<char>>(cwd),
        request_directory(cwd, Some(path), true) == Ok::<_, Seq<char>>(path),
        paths::parent_of(path) == Some(up) ==> request_directory(cwd, Some(path), false) == Ok::<
            _,
            Seq<char>,
        >(up),
        paths::parent_of(path) is None ==> request_directory(cwd, Some(path), false) == Err::<
            Seq<char>,
            _,
        >("file has no parent directory"@),
{
}

/// The ancestors of a directory are itself and those of the one above it.
pub proof fn ancestors_go_up(dir: Seq<char>, up: Seq<char>)
    ensures
        paths::parent_of(dir) is None ==> ancestors(dir) == seq![dir],
        paths::parent_of(dir) == Some(up) ==> ancestors(dir) == seq![dir] + ancestors(up),
{
    lemma_parent_shorter(dir);
}

/// The root of a workspace is the nearest directory upwards that is marked, or
/// where the search started where none is.
pub proof fn roots_are_the_nearest_marked(
    start: Seq<char>,
    dirs: Seq<Seq<char>>,
    marked: Seq<bool>,
    k: int,
    from: int,
)
    requires
        marked.len() == dirs.len(),
        0 <= from <= dirs.len(),
    ensures
        from <= k < dirs.len() && marked[k] && (forall|j: int| from <= j < k ==> !#[trigger] marked[j])
            ==> root_among(start, dirs, marked, from) == dirs[k],
        (forall|j: int| from <= j < dirs.len() ==> !#[trigger] marked[j]) ==> root_among(
            start,
            dirs,
            marked,
            from,
        ) == start,
    decreases dirs.len() - from,
{
    if from < dirs.len() && !marked[from] {
        roots_are_the_nearest_marked(start, dirs, marked, k, from + 1);
    }
}

/// A directory is looked at for the markers of the provider and for those of
/// version control.
pub proof fn workspaces_are_marked(dir: Seq<char>, markers: Seq<Seq<char>>, i: int)
    ensures
        marker_paths(dir, markers).len() == markers.len() + 3,
        0 <= i < markers.len() ==> marker_paths(dir, markers)[i] == paths::joined(dir, markers[i]),
        marker_paths(dir, markers)[markers.len() as int] == paths::joined(dir, ".git"@),
        marker_paths(dir, markers)[markers.len() as int + 1] == paths::joined(dir, ".hg"@),
        marker_paths(dir, markers)[markers.len() as int + 2] == paths::joined(dir, ".svn"@),
{
}

/// The directories that `cargo` installs into, and those that hold plugins.
pub proof fn directories_that_are_searched(
    a: Seq<char>,
    b: Seq<char>,
    c: Seq<char>,
    extra: Seq<Seq<char>>,
)
    ensures
        cargo_directories(None, None, None).len() == 0,
        cargo_directories(Some(a), None, None) == seq![paths::joined(a, "bin"@)],
        cargo_directories(None, Some(b), None) == seq![
            paths::joined(paths::joined(b, ".cargo"@), "bin"@),
        ],
        cargo_directories(None, None, Some(c)) == seq![
            paths::joined(paths::joined(c, ".cargo"@), "bin"@),
        ],
        cargo_directories(Some(a), Some(b), Some(c)) == paths::deduped(
            seq![
                paths::joined(a, "bin"@),
                paths::joined(paths::joined(b, ".cargo"@), "bin"@),
                paths::joined(paths::joined(c, ".cargo"@), "bin"@),
            ],
        ),
        plugin_directories(a, b, extra) == paths::deduped(
            seq![
                paths::joined(a, ".codex/lsp-providers"@),
                paths::joined(b, "lsp-providers"@),
            ] + extra,
        ),
{
    let none = Seq::<Seq<char>>::empty();
    assert(paths::deduped(none) =~= none);
    let in_home = paths::joined(a, "bin"@);
    let in_profile = paths::joined(paths::joined(b, ".cargo"@), "bin"@);
    let in_user = paths::joined(paths::joined(c, ".cargo"@), "bin"@);
    assert(none + none + none =~= none);
    assert(seq![in_home] + none + none =~= seq![in_home]);
    assert(none + seq![in_profile] + none =~= seq![in_profile]);
    assert(none + none + seq![in_user] =~= seq![in_user]);
    assert(seq![in_home] + seq![in_profile] + seq![in_user] =~= seq![
        in_home,
        in_profile,
        in_user,
    ]);
    lemma_one_directory(in_home);
    lemma_one_directory(in_profile);
    lemma_one_directory(in_user);
}

proof fn lemma_one_directory(dir: Seq<char>)
    ensures
        paths::deduped(seq![dir]) == seq![dir],
{
    let none = Seq::<Seq<char>>::empty();
    assert(seq![dir].drop_last() =~= none);
    assert(paths::deduped(none) =~= none);
    assert(!paths::listed(none, dir));
    assert(none.push(dir) =~= seq![dir]);
}

/// Only the server's own names, in a directory that `cargo` installs into, may be
/// a stand-in for it; and plugins are files of JSON.
pub proof fn proxies_and_plugins_are_known(
    command: Seq<char>,
    dirs: Seq<Seq<char>>,
    path: Seq<char>,
    extension: Seq<char>,
    i: int,
)
    ensures
        paths::name_of(command) != Some("rust-analyzer"@) && paths::name_of(command) != Some(
            "rust-analyzer.exe"@,
        ) ==> !is_proxy(command, dirs),
        (forall|k: int| 0 <= k < dirs.len() ==> !paths::below(command, #[trigger] dirs[k]))
            ==> !is_proxy(command, dirs),
        (paths::name_of(command) == Some("rust-analyzer"@) || paths::name_of(command) == Some(
            "rust-analyzer.exe"@,
        )) && 0 <= i < dirs.len() && paths::below(command, dirs[i]) ==> is_proxy(command, dirs),
        paths::extension_of(path) is None ==> !is_plugin_file(path),
        paths::extension_of(path) == Some(extension) ==> (is_plugin_file(path) <==> text::lowered(
            extension,
        ) == text::lowered("json"@)),
{
}

/// What is told of a provider that was not started: whether its command was
/// found.
pub proof fn listed_providers_tell_of_their_command(provider: ProviderView, facts: ProviderFacts)
    ensures
        ({
            let status = listed_status(provider, facts);
            let command = provider.command(text::opt_text(facts.command_variable));
            &&& status.id == provider.id
            &&& status.source == provider.source
            &&& status.file_extensions == provider.file_extensions
            &&& status.command_path == text::opt_text(facts.command_path)
            &&& status.error is None
            &&& !text::is_blank(command) ==> status.command == command
            &&& text::is_blank(command) ==> status.command == provider.default_command
            &&& facts.command_path is Some ==> status.command_available && status.status
                == "configured"@
            &&& facts.command_path is None ==> !status.command_available && status.status
                == "unavailable"@
        }),
{
}

/// What is told of a provider that was to be started: that it is ready, or what
/// kept it from starting.
pub proof fn probed_providers_tell_how_they_started(
    provider: ProviderView,
    facts: ProviderFacts,
    message: String,
)
    requires
        was_tried(provider, facts),
    ensures
        ({
            let status = probed_status(provider, facts);
            let command = provider.command(text::opt_text(facts.command_variable));
            let found = facts.command_path is Some;
            &&& status.id == provider.id
            &&& status.source == provider.source
            &&& status.file_extensions == provider.file_extensions
            &&& status.command == command
            &&& status.command_available == found
            &&& status.command_path == text::opt_text(facts.command_path)
            &&& !found ==> status.status == "unavailable"@ && status.error == Some(
                "language server command not found"@,
            )
            &&& found && text::is_blank(command) ==> status.status == "error"@ && status.error
                == Some("language server command is empty for provider "@ + provider.id)
            &&& found && !text::is_blank(command) && facts.start == StartOutcome::Failed(message)
                ==> status.status == "failed"@ && status.error == Some(message@)
            &&& found && !text::is_blank(command) && facts.start is Started ==> status.status
                == "ready"@ && status.error is None
        }),
{
}

/// How providers are shown: each with what is told of it, no more than the
/// limit.
pub proof fn providers_are_shown(list: Seq<StatusView>, status: StatusView, limit: int, i: int)
    requires
        limit >= 0,
    ensures
        status_value(status) == json::JsonView::Object(
            seq![
                ("id"@, json::JsonView::Str(status.id)),
                ("source"@, json::JsonView::Str(status.source)),
                ("file_extensions"@, json::strings_view(status.file_extensions)),
                ("command_available"@, json::JsonView::Bool(status.command_available)),
                ("command"@, json::JsonView::Str(status.command)),
                (
                    "command_path"@,
                    if status.command_path is Some {
                        json::JsonView::Str(status.command_path->Some_0)
                    } else {
                        json::JsonView::Null
                    },
                ),
                ("status"@, json::JsonView::Str(status.status)),
                (
                    "error"@,
                    if status.error is Some {
                        json::JsonView::Str(status.error->Some_0)
                    } else {
                        json::JsonView::Null
                    },
                ),
            ],
        ),
        providers_answer(list, limit) is Object,
        providers_answer(list, limit)->Object_0.len() == 2,
        providers_answer(list, limit)->Object_0[0] == (
            "action"@,
            json::JsonView::Str("providers"@),
        ),
        providers_answer(list, limit)->Object_0[1].0 == "providers"@,
        providers_answer(list, limit)->Object_0[1].1 is Array,
        providers_answer(list, limit)->Object_0[1].1->Array_0.len() == if list.len() > limit {
            limit
        } else {
            list.len() as int
        },
        0 <= i < list.len() && i < limit ==> providers_answer(
            list,
            limit,
        )->Object_0[1].1->Array_0[i] == status_value(list[i]),
{
    assert(status_value(status)->Object_0 =~= seq![
        ("id"@, json::JsonView::Str(status.id)),
        ("source"@, json::JsonView::Str(status.source)),
        ("file_extensions"@, json::strings_view(status.file_extensions)),
        ("command_available"@, json::JsonView::Bool(status.command_available)),
        ("command"@, json::JsonView::Str(status.command)),
        ("command_path"@, output::text_or_null(status.command_path)),
        ("status"@, json::JsonView::Str(status.status)),
        ("error"@, output::text_or_null(status.error)),
    ]);
}


/// A provider that is added to the list is in the registry, in place of any
/// other of its id, and changes nothing for other ids; every registered
/// provider was listed.
pub proof fn later_providers_take_the_place_of_earlier_ones(
    before: Seq<ProviderView>,
    after: Seq<ProviderView>,
    providers: Seq<ProviderView>,
    added: ProviderView,
    other: ProviderView,
)
    requires
        registry_of(before, providers),
        registry_of(after, providers.push(added)),
    ensures
        after.contains(added),
        other.id == added.id && after.contains(other) ==> other == added,
        other.id != added.id ==> (after.contains(other) == before.contains(other)),
        before.contains(other) ==> providers.contains(other),
        text_order::strictly_in_order(ids(after)),
{
    let all = providers.push(added);
    let n = all.len() as int;
    assert(all[n - 1] == added);
    assert(ids(after).contains(all[n - 1].id));
    let at = choose|at: int| 0 <= at < ids(after).len() && ids(after)[at] == added.id;
    assert(after[at].id == added.id);
    assert(last_with_id(all, added.id, n) == Some(added));
    assert(after[at] == added);
    if after.contains(other) {
        let i = choose|i: int| 0 <= i < after.len() && after[i] == other;
        assert(last_with_id(all, after[i].id, n) == Some(after[i]));
    }
    if before.contains(other) {
        let i = choose|i: int| 0 <= i < before.len() && before[i] == other;
        assert(last_with_id(providers, before[i].id, providers.len() as int) == Some(before[i]));
        lemma_last_is_listed(providers, other.id, providers.len() as int);
    }
    if other.id != added.id {
        lemma_last_with_id_prefix(providers, added, other.id, providers.len() as int);
        assert(last_with_id(all, other.id, n) == last_with_id(
            providers,
            other.id,
            providers.len() as int,
        ));
        if after.contains(other) {
            lemma_last_is_listed(providers, other.id, providers.len() as int);
            let k = choose|k: int| 0 <= k < providers.len() && providers[k] == other;
            assert(ids(before).contains(providers[k].id));
            let j = choose|j: int| 0 <= j < ids(before).len() && ids(before)[j] == other.id;
            assert(before[j].id == other.id);
            assert(before[j] == other);
        }
        if before.contains(other) {
            let k = choose|k: int| 0 <= k < providers.len() && providers[k] == other;
            assert(all[k] == other);
            assert(ids(after).contains(all[k].id));
            let j = choose|j: int| 0 <= j < ids(after).len() && ids(after)[j] == other.id;
            assert(after[j].id == other.id);
            assert(after[j] == other);
        }
    }
}

proof fn lemma_last_is_listed(providers: Seq<ProviderView>, id: Seq<char>, n: int)
    requires
        0 <= n <= providers.len(),
    ensures
        last_with_id(providers, id, n) matches Some(found) ==> providers.contains(found)
            && found.id == id,
    decreases n,
{
    if n > 0 && providers[n - 1].id != id {
        lemma_last_is_listed(providers, id, n - 1);
    }
}

} // verus!
