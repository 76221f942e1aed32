//! Completion: configuration prefixes, properties and enum values in TOML
//! files, environment variable names, and the arguments of summer-rs
//! macros.

use vstd::prelude::*;
use crate::lsp::{Position, Range, spec_position_in_range, position_in_range};
use crate::macros::SummerMacro;
use crate::schema::SchemaProvider;
use crate::toml_analyzer::{TomlAnalyzer, TomlDocument, ConfigSection, ConfigProperty, debug_list, debug_list_text, find_schema_prop, plugin_properties, schema_prop, bool_text};
use crate::schema::{lit, fallback_web, fallback_redis, TypeInfo, TypeInfoV, Value, ValueV, PropertySchema, props_view};
use crate::schema::PropertyV as SchemaPropertyV;
use crate::text::{views, i64_text, u64_text, nat_digits, int_text, utf8_len, utf8_width, lines_of, white_space, str_eq, split_lines, char_utf8_width, is_whitespace};
use crate::di_validator::{join, join_strings};
use crate::json::{json_view, JsonValue, JsonMember, spec_get};
use crate::schema::{spec_property_with_defs, spec_props_with_defs, ref_fuel, ref_target, get_str, defs_of, property_keys_distinct};

verus! {

/// What kind of document a completion request is for.
#[derive(Debug, Clone, Copy, PartialEq, Eq, Structural)]
pub enum CompletionContext {
    Toml,
    Macro,
    Unknown,
}

/// The kind of a completion item, as the protocol names it.
#[derive(Debug, Clone, Copy, PartialEq, Eq, Structural)]
pub enum CompletionItemKind {
    Module,
    Property,
    EnumMember,
    Variable,
    Keyword,
    Class,
    Constant,
    Snippet,
    Value,
}

/// How the insert text of a completion item is read.
#[derive(Debug, Clone, Copy, PartialEq, Eq, Structural)]
pub enum InsertTextFormat {
    PlainText,
    Snippet,
}

/// The documentation of a completion item: plain text or Markdown.
#[derive(Debug)]
pub enum Documentation {
    Plain(String),
    Markdown(String),
}

/// One completion item.
#[derive(Debug)]
pub struct CompletionItem {
    pub label: String,
    pub kind: Option<CompletionItemKind>,
    pub detail: Option<String>,
    pub documentation: Option<Documentation>,
    pub insert_text: Option<String>,
    pub insert_text_format: Option<InsertTextFormat>,
    pub deprecated: Option<bool>,
}

pub enum DocV {
    Plain(Seq<char>),
    Markdown(Seq<char>),
}

/// The content of a completion item.
pub struct ItemV {
    pub label: Seq<char>,
    pub kind: Option<CompletionItemKind>,
    pub detail: Option<Seq<char>>,
    pub documentation: Option<DocV>,
    pub insert_text: Option<Seq<char>>,
    pub insert_text_format: Option<InsertTextFormat>,
    pub deprecated: Option<bool>,
}

pub open spec fn doc_view(d: Documentation) -> DocV {
    match d {
        Documentation::Plain(s) => DocV::Plain(s@),
        Documentation::Markdown(s) => DocV::Markdown(s@),
    }
}

impl View for CompletionItem {
    type V = ItemV;

    open spec fn view(&self) -> ItemV {
        ItemV {
            label: self.label@,
            kind: self.kind,
            detail: match self.detail {
                Some(s) => Some(s@),
                None => None,
            },
            documentation: match self.documentation {
                Some(d) => Some(doc_view(d)),
                None => None,
            },
            insert_text: match self.insert_text {
                Some(s) => Some(s@),
                None => None,
            },
            insert_text_format: self.insert_text_format,
            deprecated: self.deprecated,
        }
    }
}

pub open spec fn items_view(v: Seq<CompletionItem>) -> Seq<ItemV> {
    v.map_values(|c: CompletionItem| c@)
}

/// An item with every field but `deprecated` given.
pub open spec fn spec_item(
    label: Seq<char>,
    kind: CompletionItemKind,
    detail: Seq<char>,
    doc: DocV,
    insert: Seq<char>,
    format: Option<InsertTextFormat>,
) -> ItemV {
    ItemV {
        label,
        kind: Some(kind),
        detail: Some(detail),
        documentation: Some(doc),
        insert_text: Some(insert),
        insert_text_format: format,
        deprecated: None,
    }
}

fn item(
    label: String,
    kind: CompletionItemKind,
    detail: String,
    doc: Documentation,
    insert: String,
    format: Option<InsertTextFormat>,
) -> (r: CompletionItem)
    ensures
        r@ == spec_item(label@, kind, detail@, doc_view(doc), insert@, format),
{
    CompletionItem {
        label,
        kind: Some(kind),
        detail: Some(detail),
        documentation: Some(doc),
        insert_text: Some(insert),
        insert_text_format: format,
        deprecated: None,
    }
}

fn text(s: &str) -> (r: String)
    ensures
        r@ == s@,
{
    String::from_str(s)
}

fn markdown(s: &str) -> (r: Documentation)
    ensures
        doc_view(r) == DocV::Markdown(s@),
{
    Documentation::Markdown(String::from_str(s))
}

// ----- the arguments of macros -----

pub const COMPONENT_NAME_DOC: &'static str = "指定自定义的插件名称，默认使用组件类型名 + \"Plugin\"";

pub const SERVICE_COMPONENT_DOC: &'static str = "从应用上下文中注入已注册的组件实例。\n\n\
    **示例**:\n\
    ```rust\n\
    #[inject(component)]\n\
    db: ConnectPool,\n\
    ```";

pub const SERVICE_NAMED_COMPONENT_DOC: &'static str = "使用指定名称从应用上下文中注入组件，适用于多实例场景（如多数据源）。\n\n\
    **示例**:\n\
    ```rust\n\
    #[inject(component = \"primary\")]\n\
    primary_db: ConnectPool,\n\
    ```";

pub const SERVICE_CONFIG_DOC: &'static str = "从配置文件中加载配置项。配置项通过 `#[config_prefix]` 指定的前缀从 `config/app.toml` 中读取。\n\n\
    **示例**:\n\
    ```rust\n\
    #[inject(config)]\n\
    config: MyConfig,\n\
    ```";

pub const INJECT_COMPONENT_DOC: &'static str = "从应用上下文中注入已注册的组件实例。\n\n\
    **使用方式**:\n\
    - `#[inject(component)]` - 按类型自动查找\n\
    - `#[inject(component = \"name\")]` - 按名称查找";

pub const INJECT_CONFIG_DOC: &'static str = "从配置文件中加载配置项。\n\n\
    **使用方式**:\n\
    - `#[inject(config)]` - 从 config/app.toml 加载配置";

pub const WEB_CONFIGURATOR_DOC: &'static str = "自动注册 Web 路由处理器。\n\n\
    **示例**:\n\
    ```rust\n\
    #[auto_config(WebConfigurator)]\n\
    #[tokio::main]\n\
    async fn main() {\n\
        App::new().add_plugin(WebPlugin).run().await\n\
    }\n\
    ```";

pub const JOB_CONFIGURATOR_DOC: &'static str = "自动注册定时任务。\n\n\
    **示例**:\n\
    ```rust\n\
    #[auto_config(JobConfigurator)]\n\
    #[tokio::main]\n\
    async fn main() {\n\
        App::new().add_plugin(JobPlugin).run().await\n\
    }\n\
    ```";

pub const STREAM_CONFIGURATOR_DOC: &'static str = "自动注册流消费者。\n\n\
    **示例**:\n\
    ```rust\n\
    #[auto_config(StreamConfigurator)]\n\
    #[tokio::main]\n\
    async fn main() {\n\
        App::new().add_plugin(StreamPlugin).run().await\n\
    }\n\
    ```";

pub const PATH_PARAM_DOC: &'static str = "路径参数占位符，用于捕获 URL 中的动态部分。\n\n\
    **示例**:\n\
    ```rust\n\
    #[get(\"/users/{id}\")]\n\
    async fn get_user(Path(id): Path<i64>) -> impl IntoResponse {\n\
    }\n\
    ```";

pub const CRON_HOURLY_DOC: &'static str = "Cron 表达式：每小时的第 0 分 0 秒执行\n\n\
    **格式**: 秒 分 时 日 月 星期\n\n\
    **示例**:\n\
    ```rust\n\
    #[cron(\"0 0 * * * *\")]\n\
    async fn hourly_job() {\n\
    }\n\
    ```";

pub const CRON_DAILY_DOC: &'static str = "Cron 表达式：每天午夜 00:00:00 执行\n\n\
    **格式**: 秒 分 时 日 月 星期\n\n\
    **示例**:\n\
    ```rust\n\
    #[cron(\"0 0 0 * * *\")]\n\
    async fn daily_job() {\n\
    }\n\
    ```";

pub const CRON_FIVE_MINUTES_DOC: &'static str = "Cron 表达式：每 5 分钟执行一次\n\n\
    **格式**: 秒 分 时 日 月 星期\n\n\
    **示例**:\n\
    ```rust\n\
    #[cron(\"0 */5 * * * *\")]\n\
    async fn every_five_minutes() {\n\
    }\n\
    ```";

pub const DELAY_5_DOC: &'static str = "任务完成后延迟 5 秒再次执行\n\n\
    **示例**:\n\
    ```rust\n\
    #[fix_delay(5)]\n\
    async fn delayed_job() {\n\
    }\n\
    ```";

pub const DELAY_10_DOC: &'static str = "延迟或频率为 10 秒\n\n\
    **fix_delay 示例**:\n\
    ```rust\n\
    #[fix_delay(10)]\n\
    async fn delayed_job() {\n\
    }\n\
    ```\n\n\
    **fix_rate 示例**:\n\
    ```rust\n\
    #[fix_rate(10)]\n\
    async fn periodic_job() {\n\
    }\n\
    ```";

pub const DELAY_60_DOC: &'static str = "延迟或频率为 60 秒（1 分钟）\n\n\
    **fix_delay 示例**:\n\
    ```rust\n\
    #[fix_delay(60)]\n\
    async fn delayed_job() {\n\
    }\n\
    ```\n\n\
    **fix_rate 示例**:\n\
    ```rust\n\
    #[fix_rate(60)]\n\
    async fn periodic_job() {\n\
    }\n\
    ```";

/// The completion of a `#[component]` macro: its `name` argument.
pub open spec fn component_items() -> Seq<ItemV> {
    seq![
        spec_item("name"@, CompletionItemKind::Property, "插件名称"@, DocV::Plain(COMPONENT_NAME_DOC@),
            "name = \"$1\""@, Some(InsertTextFormat::Snippet)),
    ]
}

/// The completions of a service's `inject` attribute.
pub open spec fn service_items() -> Seq<ItemV> {
    seq![
        spec_item("inject(component)"@, CompletionItemKind::Property, "注入组件"@,
            DocV::Markdown(SERVICE_COMPONENT_DOC@), "inject(component)"@, None),
        spec_item("inject(component = \"name\")"@, CompletionItemKind::Property, "注入指定名称的组件"@,
            DocV::Markdown(SERVICE_NAMED_COMPONENT_DOC@), "inject(component = \"$1\")"@, Some(InsertTextFormat::Snippet)),
        spec_item("inject(config)"@, CompletionItemKind::Property, "注入配置"@,
            DocV::Markdown(SERVICE_CONFIG_DOC@), "inject(config)"@, None),
    ]
}

/// The completions of what `#[inject(..)]` injects.
pub open spec fn inject_items() -> Seq<ItemV> {
    seq![
        spec_item("component"@, CompletionItemKind::Keyword, "注入组件"@,
            DocV::Markdown(INJECT_COMPONENT_DOC@), "component"@, None),
        spec_item("config"@, CompletionItemKind::Keyword, "注入配置"@,
            DocV::Markdown(INJECT_CONFIG_DOC@), "config"@, None),
    ]
}

/// The completions of the configurators of `#[auto_config(..)]`.
pub open spec fn auto_config_items() -> Seq<ItemV> {
    seq![
        spec_item("WebConfigurator"@, CompletionItemKind::Class, "Web 路由配置器"@,
            DocV::Markdown(WEB_CONFIGURATOR_DOC@), "WebConfigurator"@, None),
        spec_item("JobConfigurator"@, CompletionItemKind::Class, "任务调度配置器"@,
            DocV::Markdown(JOB_CONFIGURATOR_DOC@), "JobConfigurator"@, None),
        spec_item("StreamConfigurator"@, CompletionItemKind::Class, "流处理配置器"@,
            DocV::Markdown(STREAM_CONFIGURATOR_DOC@), "StreamConfigurator"@, None),
    ]
}

/// The completion of an HTTP method in a route macro.
pub open spec fn method_item(method: Seq<char>, lower: Seq<char>, description: Seq<char>) -> ItemV {
    spec_item(method, CompletionItemKind::Constant, description,
        DocV::Markdown("HTTP "@ + method + " 方法\n\n**示例**:\n```rust\n#["@ + lower
            + "(\"/path\")]\nasync fn handler() -> impl IntoResponse {\n}\n```"@),
        method, None)
}

/// The completions of a route macro: the HTTP methods, then a path
/// parameter.
pub open spec fn route_items() -> Seq<ItemV> {
    seq![
        method_item("GET"@, "get"@, "获取资源"@),
        method_item("POST"@, "post"@, "创建资源"@),
        method_item("PUT"@, "put"@, "更新资源（完整）"@),
        method_item("DELETE"@, "delete"@, "删除资源"@),
        method_item("PATCH"@, "patch"@, "更新资源（部分）"@),
        method_item("HEAD"@, "head"@, "获取资源头信息"@),
        method_item("OPTIONS"@, "options"@, "获取支持的方法"@),
        spec_item("{id}"@, CompletionItemKind::Snippet, "路径参数"@, DocV::Markdown(PATH_PARAM_DOC@),
            "{${1:id}}"@, Some(InsertTextFormat::Snippet)),
    ]
}

/// The completions of a job macro: cron expressions, then delays and rates.
pub open spec fn job_items() -> Seq<ItemV> {
    seq![
        spec_item("0 0 * * * *"@, CompletionItemKind::Snippet, "每小时执行"@,
            DocV::Markdown(CRON_HOURLY_DOC@), "\"0 0 * * * *\""@, None),
        spec_item("0 0 0 * * *"@, CompletionItemKind::Snippet, "每天午夜执行"@,
            DocV::Markdown(CRON_DAILY_DOC@), "\"0 0 0 * * *\""@, None),
        spec_item("0 */5 * * * *"@, CompletionItemKind::Snippet, "每 5 分钟执行"@,
            DocV::Markdown(CRON_FIVE_MINUTES_DOC@), "\"0 */5 * * * *\""@, None),
        spec_item("5"@, CompletionItemKind::Value, "延迟 5 秒"@, DocV::Markdown(DELAY_5_DOC@), "5"@, None),
        spec_item("10"@, CompletionItemKind::Value, "延迟/频率 10 秒"@, DocV::Markdown(DELAY_10_DOC@), "10"@, None),
        spec_item("60"@, CompletionItemKind::Value, "延迟/频率 60 秒（1 分钟）"@,
            DocV::Markdown(DELAY_60_DOC@), "60"@, None),
    ]
}

/// The completions of the arguments of a macro.
pub open spec fn macro_items(m: SummerMacro) -> Seq<ItemV> {
    match m {
        SummerMacro::DeriveService(_) => service_items(),
        SummerMacro::Component(_) => component_items(),
        SummerMacro::Inject(_) => inject_items(),
        SummerMacro::AutoConfig(_) => auto_config_items(),
        SummerMacro::Route(_) => route_items(),
        SummerMacro::Job(_) => job_items(),
    }
}

/// The completion of a commonly used environment variable.
pub open spec fn env_item(name: Seq<char>, description: Seq<char>) -> ItemV {
    spec_item(name, CompletionItemKind::Variable, description,
        DocV::Markdown("**"@ + name + "**\n\n"@ + description
            + "\n\n**使用方式**:\n```toml\nvalue = \"${"@ + name + ":default}\"\n```"@),
        name + ":${1:default}}"@, Some(InsertTextFormat::Snippet))
}

/// The completions of environment variable names.
pub open spec fn env_items() -> Seq<ItemV> {
    seq![
        env_item("HOST"@, "主机地址"@),
        env_item("PORT"@, "端口号"@),
        env_item("DATABASE_URL"@, "数据库连接 URL"@),
        env_item("REDIS_URL"@, "Redis 连接 URL"@),
        env_item("LOG_LEVEL"@, "日志级别"@),
        env_item("ENV"@, "运行环境"@),
        env_item("DEBUG"@, "调试模式"@),
    ]
}

fn method_completion(method: &str, lower: &str, description: &str) -> (r: CompletionItem)
    ensures
        r@ == method_item(method@, lower@, description@),
{
    let mut doc = text("HTTP ");
    doc.append(method);
    doc.append(" 方法\n\n**示例**:\n```rust\n#[");
    doc.append(lower);
    doc.append("(\"/path\")]\nasync fn handler() -> impl IntoResponse {\n}\n```");
    item(text(method), CompletionItemKind::Constant, text(description), Documentation::Markdown(doc), text(method), None)
}

fn env_completion(name: &str, description: &str) -> (r: CompletionItem)
    ensures
        r@ == env_item(name@, description@),
{
    let mut doc = text("**");
    doc.append(name);
    doc.append("**\n\n");
    doc.append(description);
    doc.append("\n\n**使用方式**:\n```toml\nvalue = \"${");
    doc.append(name);
    doc.append(":default}\"\n```");
    let mut insert = text(name);
    insert.append(":${1:default}}");
    item(text(name), CompletionItemKind::Variable, text(description), Documentation::Markdown(doc), insert,
        Some(InsertTextFormat::Snippet))
}

/// Offers completions for configuration files and summer-rs macros.
pub struct CompletionEngine {
    toml_analyzer: TomlAnalyzer,
}

impl CompletionEngine {
    /// The schema the engine completes configuration against.
    pub closed spec fn schema(&self) -> SchemaProvider {
        self.toml_analyzer.schema()
    }

    /// The engine's schema names each plugin property once.
    pub open spec fn wf(&self) -> bool {
        self.schema().wf()
    }

    /// An engine completing against the given schema.
    pub fn new(schema_provider: SchemaProvider) -> (r: CompletionEngine)
        ensures
            r.schema() == schema_provider,
            r.wf() == schema_provider.wf(),
    {
        CompletionEngine { toml_analyzer: TomlAnalyzer::new(schema_provider) }
    }

    /// The completions of the arguments of a macro. The text at the cursor
    /// does not change them.
    pub fn complete_macro(&self, macro_info: &SummerMacro, cursor_position: Option<&str>) -> (r: Vec<CompletionItem>)
        ensures
            items_view(r@) == macro_items(*macro_info),
    {
        match macro_info {
            SummerMacro::DeriveService(_) => self.complete_service_macro(),
            SummerMacro::Component(_) => self.complete_component_macro(),
            SummerMacro::Inject(_) => self.complete_inject_macro(),
            SummerMacro::AutoConfig(_) => self.complete_auto_config_macro(),
            SummerMacro::Route(_) => self.complete_route_macro(),
            SummerMacro::Job(_) => self.complete_job_macro(),
        }
    }

    fn complete_component_macro(&self) -> (r: Vec<CompletionItem>)
        ensures
            items_view(r@) == component_items(),
    {
        let mut v: Vec<CompletionItem> = Vec::new();
        v.push(item(text("name"), CompletionItemKind::Property, text("插件名称"),
            Documentation::Plain(text(COMPONENT_NAME_DOC)), text("name = \"$1\""), Some(InsertTextFormat::Snippet)));
        assert(items_view(v@) =~= component_items());
        v
    }

    fn complete_service_macro(&self) -> (r: Vec<CompletionItem>)
        ensures
            items_view(r@) == service_items(),
    {
        let mut v: Vec<CompletionItem> = Vec::new();
        v.push(item(text("inject(component)"), CompletionItemKind::Property, text("注入组件"),
            markdown(SERVICE_COMPONENT_DOC), text("inject(component)"), None));
        v.push(item(text("inject(component = \"name\")"), CompletionItemKind::Property, text("注入指定名称的组件"),
            markdown(SERVICE_NAMED_COMPONENT_DOC), text("inject(component = \"$1\")"), Some(InsertTextFormat::Snippet)));
        v.push(item(text("inject(config)"), CompletionItemKind::Property, text("注入配置"),
            markdown(SERVICE_CONFIG_DOC), text("inject(config)"), None));
        assert(items_view(v@) =~= service_items());
        v
    }

    fn complete_inject_macro(&self) -> (r: Vec<CompletionItem>)
        ensures
            items_view(r@) == inject_items(),
    {
        let mut v: Vec<CompletionItem> = Vec::new();
        v.push(item(text("component"), CompletionItemKind::Keyword, text("注入组件"),
            markdown(INJECT_COMPONENT_DOC), text("component"), None));
        v.push(item(text("config"), CompletionItemKind::Keyword, text("注入配置"),
            markdown(INJECT_CONFIG_DOC), text("config"), None));
        assert(items_view(v@) =~= inject_items());
        v
    }

    fn complete_auto_config_macro(&self) -> (r: Vec<CompletionItem>)
        ensures
            items_view(r@) == auto_config_items(),
    {
        let mut v: Vec<CompletionItem> = Vec::new();
        v.push(item(text("WebConfigurator"), CompletionItemKind::Class, text("Web 路由配置器"),
            markdown(WEB_CONFIGURATOR_DOC), text("WebConfigurator"), None));
        v.push(item(text("JobConfigurator"), CompletionItemKind::Class, text("任务调度配置器"),
            markdown(JOB_CONFIGURATOR_DOC), text("JobConfigurator"), None));
        v.push(item(text("StreamConfigurator"), CompletionItemKind::Class, text("流处理配置器"),
            markdown(STREAM_CONFIGURATOR_DOC), text("StreamConfigurator"), None));
        assert(items_view(v@) =~= auto_config_items());
        v
    }

    fn complete_route_macro(&self) -> (r: Vec<CompletionItem>)
        ensures
            items_view(r@) == route_items(),
    {
        let mut v: Vec<CompletionItem> = Vec::new();
        v.push(method_completion("GET", "get", "获取资源"));
        v.push(method_completion("POST", "post", "创建资源"));
        v.push(method_completion("PUT", "put", "更新资源（完整）"));
        v.push(method_completion("DELETE", "delete", "删除资源"));
        v.push(method_completion("PATCH", "patch", "更新资源（部分）"));
        v.push(method_completion("HEAD", "head", "获取资源头信息"));
        v.push(method_completion("OPTIONS", "options", "获取支持的方法"));
        v.push(item(text("{id}"), CompletionItemKind::Snippet, text("路径参数"), markdown(PATH_PARAM_DOC),
            text("{${1:id}}"), Some(InsertTextFormat::Snippet)));
        assert(items_view(v@) =~= route_items());
        v
    }

    fn complete_job_macro(&self) -> (r: Vec<CompletionItem>)
        ensures
            items_view(r@) == job_items(),
    {
        let mut v: Vec<CompletionItem> = Vec::new();
        v.push(item(text("0 0 * * * *"), CompletionItemKind::Snippet, text("每小时执行"),
            markdown(CRON_HOURLY_DOC), text("\"0 0 * * * *\""), None));
        v.push(item(text("0 0 0 * * *"), CompletionItemKind::Snippet, text("每天午夜执行"),
            markdown(CRON_DAILY_DOC), text("\"0 0 0 * * *\""), None));
        v.push(item(text("0 */5 * * * *"), CompletionItemKind::Snippet, text("每 5 分钟执行"),
            markdown(CRON_FIVE_MINUTES_DOC), text("\"0 */5 * * * *\""), None));
        v.push(item(text("5"), CompletionItemKind::Value, text("延迟 5 秒"), markdown(DELAY_5_DOC), text("5"), None));
        v.push(item(text("10"), CompletionItemKind::Value, text("延迟/频率 10 秒"), markdown(DELAY_10_DOC),
            text("10"), None));
        v.push(item(text("60"), CompletionItemKind::Value, text("延迟/频率 60 秒（1 分钟）"),
            markdown(DELAY_60_DOC), text("60"), None));
        assert(items_view(v@) =~= job_items());
        v
    }

    /// The completions of commonly used environment variable names.
    pub fn complete_env_var(&self) -> (r: Vec<CompletionItem>)
        ensures
            items_view(r@) == env_items(),
    {
        let mut v: Vec<CompletionItem> = Vec::new();
        v.push(env_completion("HOST", "主机地址"));
        v.push(env_completion("PORT", "端口号"));
        v.push(env_completion("DATABASE_URL", "数据库连接 URL"));
        v.push(env_completion("REDIS_URL", "Redis 连接 URL"));
        v.push(env_completion("LOG_LEVEL", "日志级别"));
        v.push(env_completion("ENV", "运行环境"));
        v.push(env_completion("DEBUG", "调试模式"));
        assert(items_view(v@) =~= env_items());
        v
    }
}

// ----- configuration files -----

/// The completion of a configuration prefix.
pub open spec fn prefix_item(p: Seq<char>) -> ItemV {
    spec_item(p, CompletionItemKind::Module, "["@ + p + "] 配置节"@,
        DocV::Markdown("**"@ + p + "** 插件配置节\n\n"@ + p
            + " 插件配置\n\n**使用方式**:\n```toml\n["@ + p + "]\n# 配置项...\n```"@),
        "["@ + p + "]\n"@, Some(InsertTextFormat::Snippet))
}

pub open spec fn prefix_items(ps: Seq<Seq<char>>) -> Seq<ItemV> {
    ps.map_values(|p: Seq<char>| prefix_item(p))
}

/// The completion of an enum value.
pub open spec fn enum_item(v: Seq<char>) -> ItemV {
    spec_item(v, CompletionItemKind::EnumMember, "枚举值: "@ + v, DocV::Markdown("枚举值 `"@ + v + "`"@),
        "\""@ + v + "\""@, Some(InsertTextFormat::PlainText))
}

pub open spec fn enum_items(vs: Seq<Seq<char>>) -> Seq<ItemV> {
    vs.map_values(|v: Seq<char>| enum_item(v))
}

/// The type hint written after a completed property.
pub open spec fn type_hint(t: TypeInfoV) -> Seq<char> {
    match t {
        TypeInfoV::Str { enum_values: Some(vs), .. } => "enum: "@ + debug_list(vs),
        TypeInfoV::Str { .. } => "string"@,
        TypeInfoV::Integer { min: Some(lo), max: Some(hi) } => "integer ("@ + int_text(lo as int) + " - "@
            + int_text(hi as int) + ")"@,
        TypeInfoV::Integer { .. } => "integer"@,
        TypeInfoV::Float { .. } => "float"@,
        TypeInfoV::Boolean => "boolean"@,
        TypeInfoV::Array { .. } => "array"@,
        TypeInfoV::Object { .. } => "object"@,
    }
}

/// The value a completed property gets when its schema gives no default:
/// the first enum value, or the empty value of its type.
pub open spec fn type_default(t: TypeInfoV) -> Seq<char> {
    match t {
        TypeInfoV::Str { enum_values: Some(vs), .. } => if vs.len() > 0 {
            "\""@ + vs[0] + "\""@
        } else {
            "\"\""@
        },
        TypeInfoV::Str { .. } => "\"\""@,
        TypeInfoV::Integer { .. } => "0"@,
        TypeInfoV::Float { .. } => "0.0"@,
        TypeInfoV::Boolean => "false"@,
        TypeInfoV::Array { .. } => "[]"@,
        TypeInfoV::Object { .. } => "{}"@,
    }
}

/// How a schema default is written into a completed property: arrays and
/// tables as empty ones.
pub open spec fn value_text(v: ValueV) -> Seq<char> {
    match v {
        ValueV::Str(s) => "\""@ + s + "\""@,
        ValueV::Integer(i) => int_text(i as int),
        ValueV::Float(f) => f,
        ValueV::Boolean(b) => bool_text(b),
        ValueV::Array(_) => "[]"@,
        ValueV::Table(_) => "{}"@,
    }
}

/// The paragraphs of a completed property's documentation.
pub open spec fn property_doc_parts(sp: SchemaPropertyV) -> Seq<Seq<char>> {
    (if sp.description.len() > 0 { seq![sp.description] } else { seq![] })
        + seq!["**类型**: `"@ + type_hint(sp.type_info) + "`"@]
        + (match sp.default {
            Some(v) => seq!["**默认值**: `"@ + value_text(v) + "`"@],
            None => seq![],
        })
        + (if sp.required { seq!["**必需**: 是"@] } else { seq![] })
        + (match sp.deprecated {
            Some(m) => seq!["**已废弃**: "@ + m],
            None => seq![],
        })
}

/// The completion of a property: `key = value  # type` is inserted.
pub open spec fn property_item(sp: SchemaPropertyV) -> ItemV {
    let hint = type_hint(sp.type_info);
    let value = match sp.default {
        Some(v) => value_text(v),
        None => type_default(sp.type_info),
    };
    ItemV {
        label: sp.name,
        kind: Some(CompletionItemKind::Property),
        detail: Some(sp.name + ": "@ + hint),
        documentation: Some(DocV::Markdown(join(property_doc_parts(sp), "\n\n"@))),
        insert_text: Some(sp.name + " = "@ + value + "  # "@ + hint),
        insert_text_format: Some(InsertTextFormat::PlainText),
        deprecated: if sp.deprecated is Some { Some(true) } else { None },
    }
}

/// The names of a section's properties.
pub open spec fn section_keys(ps: Seq<(String, ConfigProperty)>) -> Seq<Seq<char>> {
    Seq::new(ps.len(), |i: int| ps[i].0@)
}

/// The completions of the schema properties whose names are not in `used`,
/// in schema order.
pub open spec fn unused_items(sps: Seq<SchemaPropertyV>, used: Seq<Seq<char>>) -> Seq<ItemV>
    decreases sps.len(),
{
    if sps.len() == 0 {
        seq![]
    } else if used.contains(sps.last().name) {
        unused_items(sps.drop_last(), used)
    } else {
        unused_items(sps.drop_last(), used).push(property_item(sps.last()))
    }
}

/// The completions of the properties a section does not set yet; none when
/// the schema has no properties for its prefix.
pub open spec fn property_items(schema: SchemaProvider, section: ConfigSection) -> Seq<ItemV> {
    match plugin_properties(schema, section.prefix@) {
        Some(sps) => unused_items(sps, section_keys(section.properties@)),
        None => seq![],
    }
}

proof fn lemma_unused_items(sps: Seq<SchemaPropertyV>, used: Seq<Seq<char>>)
    ensures
        forall|k: int| 0 <= k < unused_items(sps, used).len() ==> exists|j: int| 0 <= j < sps.len()
            && !used.contains(sps[j].name) && #[trigger] unused_items(sps, used)[k] == property_item(sps[j]),
        forall|j: int| 0 <= j < sps.len() && !used.contains(#[trigger] sps[j].name) ==> exists|k: int|
            0 <= k < unused_items(sps, used).len() && unused_items(sps, used)[k] == property_item(sps[j]),
    decreases sps.len(),
{
    if sps.len() > 0 {
        let init = sps.drop_last();
        lemma_unused_items(init, used);
        let r = unused_items(sps, used);
        let ri = unused_items(init, used);
        assert forall|k: int| 0 <= k < r.len() implies exists|j: int| 0 <= j < sps.len()
            && !used.contains(sps[j].name) && #[trigger] r[k] == property_item(sps[j]) by {
            if k < ri.len() {
                let j = choose|j: int| 0 <= j < init.len() && !used.contains(init[j].name) && #[trigger] ri[k] == property_item(init[j]);
                assert(sps[j] == init[j]);
            } else {
                assert(r[k] == property_item(sps[sps.len() - 1]));
            }
        }
        assert forall|j: int| 0 <= j < sps.len() && !used.contains(#[trigger] sps[j].name) implies exists|k: int|
            0 <= k < r.len() && r[k] == property_item(sps[j]) by {
            if j < init.len() {
                assert(init[j] == sps[j]);
                let k = choose|k: int| 0 <= k < ri.len() && ri[k] == property_item(init[j]);
                assert(r[k] == ri[k]);
            } else {
                assert(r[r.len() - 1] == property_item(sps[j]));
            }
        }
    }
}

proof fn lemma_unused_labels(sps: Seq<SchemaPropertyV>, used: Seq<Seq<char>>)
    ensures
        forall|k: int| 0 <= k < unused_items(sps, used).len() ==> !used.contains(
            #[trigger] unused_items(sps, used)[k].label),
        forall|j: int| 0 <= j < sps.len() && !used.contains(#[trigger] sps[j].name) ==> exists|k: int|
            0 <= k < unused_items(sps, used).len() && unused_items(sps, used)[k].label == sps[j].name,
{
    lemma_unused_items(sps, used);
    let r = unused_items(sps, used);
    assert forall|k: int| 0 <= k < r.len() implies !used.contains(#[trigger] r[k].label) by {
        let j = choose|j: int| 0 <= j < sps.len() && !used.contains(sps[j].name) && #[trigger] r[k] == property_item(sps[j]);
    }
    assert forall|j: int| 0 <= j < sps.len() && !used.contains(#[trigger] sps[j].name) implies exists|k: int|
        0 <= k < r.len() && r[k].label == sps[j].name by {
        let k = choose|k: int| 0 <= k < r.len() && r[k] == property_item(sps[j]);
        assert(r[k].label == sps[j].name);
    }
}

/// Whether no two schema properties share a name.
pub open spec fn distinct_names(sps: Seq<SchemaPropertyV>) -> bool {
    forall|a: int, b: int| 0 <= a < b < sps.len() ==> sps[a].name != sps[b].name
}

proof fn lemma_unused_distinct(sps: Seq<SchemaPropertyV>, used: Seq<Seq<char>>)
    requires
        distinct_names(sps),
    ensures
        forall|a: int, b: int| 0 <= a < b < unused_items(sps, used).len() ==> unused_items(sps, used)[a].label
            != unused_items(sps, used)[b].label,
    decreases sps.len(),
{
    if sps.len() > 0 {
        let init = sps.drop_last();
        lemma_unused_distinct(init, used);
        lemma_unused_items(init, used);
        let ri = unused_items(init, used);
        let r = unused_items(sps, used);
        if !used.contains(sps.last().name) {
            assert forall|a: int, b: int| 0 <= a < b < r.len() implies r[a].label != r[b].label by {
                if b == r.len() - 1 {
                    let j = choose|j: int| 0 <= j < init.len() && !used.contains(init[j].name) && #[trigger] ri[a] == property_item(init[j]);
                    assert(sps[j] == init[j]);
                    assert(r[a] == ri[a]);
                } else {
                    assert(r[a] == ri[a] && r[b] == ri[b]);
                }
            }
        }
    }
}

/// Completing the properties of a section offers each property at most
/// once.
pub proof fn law_property_completions_distinct(schema: SchemaProvider, section: ConfigSection)
    requires
        schema.wf(),
    ensures
        forall|a: int, b: int| 0 <= a < b < property_items(schema, section).len() ==> property_items(schema, section)[a].label
            != property_items(schema, section)[b].label,
{
    if let Some(s) = schema.plugin(section.prefix@) {
        assert(property_keys_distinct(s));
        if let Some(JsonValue::Object(ms)) = spec_get(s, lit("properties")) {
            lemma_props_distinct(ms@, defs_of(s));
        }
    }
    if let Some(sps) = plugin_properties(schema, section.prefix@) {
        lemma_unused_distinct(sps, section_keys(section.properties@));
    }
}

/// A property read from a schema node carries the name it was read under.
proof fn lemma_property_name(name: Seq<char>, v: JsonValue, defs: JsonValue, fuel: nat)
    ensures
        spec_property_with_defs(name, v, defs, fuel) matches Some(p) ==> p.name == name,
    decreases fuel,
{
    if let Some(r) = get_str(v, lit("$ref")) {
        if let Some(d) = ref_target(r, defs) {
            if fuel > 0 {
                lemma_property_name(name, d, defs, (fuel - 1) as nat);
            }
        }
    }
}

/// The properties of members that name each key once have distinct names,
/// each the key of a member.
proof fn lemma_props_distinct(ms: Seq<JsonMember>, defs: JsonValue)
    requires
        forall|a: int, b: int| 0 <= a < b < ms.len() ==> (#[trigger] ms[a]).key@ != (#[trigger] ms[b]).key@,
    ensures
        distinct_names(spec_props_with_defs(ms, defs)),
        forall|k: int| 0 <= k < spec_props_with_defs(ms, defs).len() ==> exists|j: int| 0 <= j < ms.len()
            && #[trigger] spec_props_with_defs(ms, defs)[k].name == ms[j].key@,
    decreases ms.len(),
{
    if ms.len() > 0 {
        let init = ms.drop_last();
        assert forall|a: int, b: int| 0 <= a < b < init.len() implies (#[trigger] init[a]).key@ != (#[trigger] init[b]).key@ by {
            assert(init[a] == ms[a] && init[b] == ms[b]);
        }
        lemma_props_distinct(init, defs);
        let rest = spec_props_with_defs(init, defs);
        lemma_property_name(ms.last().key@, ms.last().value, defs, ref_fuel(defs));
        if let Some(p) = spec_property_with_defs(ms.last().key@, ms.last().value, defs, ref_fuel(defs)) {
            let all = rest.push(p);
            assert forall|k: int| 0 <= k < rest.len() implies #[trigger] rest[k].name != p.name by {
                let j = choose|j: int| 0 <= j < init.len() && #[trigger] rest[k].name == init[j].key@;
                assert(init[j] == ms[j]);
                assert(ms[j].key@ != ms[ms.len() - 1].key@);
            }
            assert forall|a: int, b: int| 0 <= a < b < all.len() implies all[a].name != all[b].name by {
                if b == rest.len() {
                    assert(all[a] == rest[a]);
                } else {
                    assert(all[a] == rest[a] && all[b] == rest[b]);
                }
            }
            assert forall|k: int| 0 <= k < all.len() implies exists|j: int| 0 <= j < ms.len()
                && #[trigger] all[k].name == ms[j].key@ by {
                if k == rest.len() {
                    assert(all[k].name == ms[ms.len() - 1].key@);
                } else {
                    assert(all[k] == rest[k]);
                    let j = choose|j: int| 0 <= j < init.len() && #[trigger] rest[k].name == init[j].key@;
                    assert(init[j] == ms[j]);
                }
            }
        } else {
            assert forall|k: int| 0 <= k < rest.len() implies exists|j: int| 0 <= j < ms.len()
                && #[trigger] rest[k].name == ms[j].key@ by {
                let j = choose|j: int| 0 <= j < init.len() && #[trigger] rest[k].name == init[j].key@;
                assert(init[j] == ms[j]);
            }
        }
    }
}

/// The characters of `line` that lie wholly before byte `b`, counted from
/// character `k` on.
pub open spec fn chars_before_from(line: Seq<char>, b: nat, k: nat) -> nat
    decreases line.len() - k,
{
    if k < line.len() && utf8_len(line.take((k + 1) as int)) <= b {
        chars_before_from(line, b, k + 1)
    } else {
        k
    }
}

/// The text of `line` before byte `b`.
pub open spec fn text_before(line: Seq<char>, b: nat) -> Seq<char> {
    line.take(chars_before_from(line, b, 0) as int)
}

/// Whether byte `b` of `line` starts a character or ends the line.
pub open spec fn at_char_boundary(line: Seq<char>, b: nat) -> bool {
    utf8_len(text_before(line, b)) == b
}

proof fn lemma_utf8_len_take_mono(s: Seq<char>, n: int)
    requires
        0 <= n <= s.len(),
    ensures
        forall|m: int| 0 <= m <= n ==> #[trigger] utf8_len(s.take(m)) <= utf8_len(s.take(n)),
        utf8_len(s.take(n)) <= utf8_len(s),
    decreases s.len() - n,
{
    if n < s.len() {
        assert(s.take(n + 1).drop_last() =~= s.take(n));
        lemma_utf8_len_take_mono(s, n + 1);
    } else {
        assert(s.take(n) =~= s);
    }
    assert forall|m: int| 0 <= m <= n implies #[trigger] utf8_len(s.take(m)) <= utf8_len(s.take(n)) by {
        lemma_utf8_len_prefix(s, m, n);
    }
}

proof fn lemma_utf8_len_prefix(s: Seq<char>, m: int, n: int)
    requires
        0 <= m <= n <= s.len(),
    ensures
        utf8_len(s.take(m)) <= utf8_len(s.take(n)),
    decreases n - m,
{
    if m < n {
        assert(s.take(n).drop_last() =~= s.take(n - 1));
        lemma_utf8_len_prefix(s, m, n - 1);
    }
}

/// A text without its leading white space.
pub open spec fn trim_start(s: Seq<char>) -> Seq<char>
    decreases s.len(),
{
    if s.len() > 0 && white_space(s[0]) {
        trim_start(s.drop_first())
    } else {
        s
    }
}

/// Whether the cursor is where a section header is being typed: on a line
/// without `]`, after text that starts, white space aside, with `[`.
pub open spec fn spec_prefix_position(content: Seq<char>, pos: Position) -> bool {
    let lines = lines_of(content);
    &&& pos.line < lines.len()
    &&& pos.character <= utf8_len(lines[pos.line as int])
    &&& {
        let line = lines[pos.line as int];
        let t = trim_start(text_before(line, pos.character as nat));
        t.len() > 0 && t[0] == '[' && !line.contains(']')
    }
}

/// What a caller must know of the cursor: on an existing line and not past
/// its end, it stands at a character boundary.
pub open spec fn valid_cursor(content: Seq<char>, pos: Position) -> bool {
    let lines = lines_of(content);
    pos.line < lines.len() && pos.character <= utf8_len(lines[pos.line as int])
        ==> at_char_boundary(lines[pos.line as int], pos.character as nat)
}

/// The index of the first section whose range holds `pos`.
pub open spec fn section_index_at(ss: Seq<ConfigSection>, pos: Position) -> Option<int>
    decreases ss.len(),
{
    if ss.len() == 0 {
        None
    } else if spec_position_in_range(pos, ss[0].range) {
        Some(0)
    } else {
        match section_index_at(ss.drop_first(), pos) {
            Some(i) => Some(i + 1),
            None => None,
        }
    }
}

/// The name of the first property whose range holds `pos`.
pub open spec fn property_name_at(ps: Seq<(String, ConfigProperty)>, pos: Position) -> Option<Seq<char>>
    decreases ps.len(),
{
    if ps.len() == 0 {
        None
    } else if spec_position_in_range(pos, ps[0].1.range) {
        Some(ps[0].0@)
    } else {
        property_name_at(ps.drop_first(), pos)
    }
}

/// The enum values of the property `name` of plugin `prefix`, if its
/// schema is a string with enum values.
pub open spec fn enum_values_of(schema: SchemaProvider, prefix: Seq<char>, name: Seq<char>) -> Option<Seq<Seq<char>>> {
    match plugin_properties(schema, prefix) {
        Some(sps) => match schema_prop(sps, name) {
            Some(sp) => match sp.type_info {
                TypeInfoV::Str { enum_values: Some(vs), .. } => Some(vs),
                _ => None,
            },
            None => None,
        },
        None => None,
    }
}

/// The completions at `pos` in a configuration file: the prefixes where a
/// section header is being typed; inside a section, the enum values of the
/// property under the cursor if it has some, else the properties the
/// section does not set yet; nothing elsewhere.
pub open spec fn toml_items(schema: SchemaProvider, doc: TomlDocument, pos: Position) -> Seq<ItemV> {
    if spec_prefix_position(doc.content@, pos) {
        prefix_items(schema.prefix_list())
    } else {
        match section_index_at(doc.config_sections@, pos) {
            None => seq![],
            Some(i) => {
                let section = doc.config_sections@[i];
                let values = match property_name_at(section.properties@, pos) {
                    Some(name) => enum_values_of(schema, section.prefix@, name),
                    None => None,
                };
                match values {
                    Some(vs) => enum_items(vs),
                    None => property_items(schema, section),
                }
            },
        }
    }
}

fn has_key(ps: &Vec<(String, ConfigProperty)>, key: &str) -> (r: bool)
    ensures
        r == section_keys(ps@).contains(key@),
{
    let mut i: usize = 0;
    while i < ps.len()
        invariant
            i <= ps@.len(),
            forall|k: int| 0 <= k < i ==> ps@[k].0@ != key@,
        decreases ps@.len() - i,
    {
        if str_eq(ps[i].0.as_str(), key) {
            assert(section_keys(ps@)[i as int] == key@);
            return true;
        }
        i = i + 1;
    }
    proof {
        if section_keys(ps@).contains(key@) {
            let k = choose|k: int| 0 <= k < section_keys(ps@).len() && section_keys(ps@)[k] == key@;
            assert(ps@[k].0@ == key@);
        }
    }
    false
}

impl CompletionEngine {
    /// Whether a position lies inside a range, both ends included.
    pub fn position_in_range(&self, position: Position, range: Range) -> (r: bool)
        ensures
            r == spec_position_in_range(position, range),
    {
        position_in_range(position, range)
    }

    /// One completion per configuration prefix of the schema.
    pub fn complete_config_prefix(&self) -> (r: Vec<CompletionItem>)
        ensures
            items_view(r@) == prefix_items(self.schema().prefix_list()),
            forall|p: Seq<char>| self.schema().plugin(p) is Some <==> exists|k: int| 0 <= k < r@.len()
                && #[trigger] r@[k].label@ == p,
            forall|a: int, b: int| 0 <= a < b < r@.len() ==> r@[a].label@ != r@[b].label@,
    {
        let prefixes = self.toml_analyzer.schema_provider().get_all_prefixes();
        let mut out: Vec<CompletionItem> = Vec::new();
        let mut i: usize = 0;
        while i < prefixes.len()
            invariant
                i <= prefixes@.len(),
                out@.len() == i,
                forall|k: int| 0 <= k < i ==> #[trigger] out@[k]@ == prefix_item(prefixes@[k]@),
            decreases prefixes@.len() - i,
        {
            let p = prefixes[i].as_str();
            let mut detail = text("[");
            detail.append(p);
            detail.append("] 配置节");
            let mut doc = text("**");
            doc.append(p);
            doc.append("** 插件配置节\n\n");
            doc.append(p);
            doc.append(" 插件配置\n\n**使用方式**:\n```toml\n[");
            doc.append(p);
            doc.append("]\n# 配置项...\n```");
            let mut insert = text("[");
            insert.append(p);
            insert.append("]\n");
            out.push(item(text(p), CompletionItemKind::Module, detail, Documentation::Markdown(doc), insert,
                Some(InsertTextFormat::Snippet)));
            i = i + 1;
        }
        proof {
            let ps = self.schema().prefix_list();
            assert(items_view(out@) =~= prefix_items(ps));
            assert forall|k: int| 0 <= k < out@.len() implies #[trigger] out@[k].label@ == prefixes@[k]@ by {
                assert(out@[k]@ == prefix_item(prefixes@[k]@));
            }
            assert forall|p: Seq<char>| self.schema().plugin(p) is Some <==> exists|k: int| 0 <= k < out@.len()
                && #[trigger] out@[k].label@ == p by {
                if self.schema().plugin(p) is Some {
                    let k = choose|k: int| 0 <= k < prefixes@.len() && #[trigger] prefixes@[k]@ == p;
                    assert(out@[k].label@ == p);
                }
                if exists|k: int| 0 <= k < out@.len() && #[trigger] out@[k].label@ == p {
                    let k = choose|k: int| 0 <= k < out@.len() && #[trigger] out@[k].label@ == p;
                    assert(prefixes@[k]@ == p);
                }
            }
        }
        out
    }

    /// One completion per enum value, in order.
    pub fn complete_enum_values(&self, values: &Vec<String>) -> (r: Vec<CompletionItem>)
        ensures
            items_view(r@) == enum_items(views(values@)),
    {
        let mut out: Vec<CompletionItem> = Vec::new();
        let mut i: usize = 0;
        while i < values.len()
            invariant
                i <= values@.len(),
                out@.len() == i,
                forall|k: int| 0 <= k < i ==> #[trigger] out@[k]@ == enum_item(values@[k]@),
            decreases values@.len() - i,
        {
            let v = values[i].as_str();
            let mut detail = text("枚举值: ");
            detail.append(v);
            let mut doc = text("枚举值 `");
            doc.append(v);
            doc.append("`");
            let mut insert = text("\"");
            insert.append(v);
            insert.append("\"");
            out.push(item(text(v), CompletionItemKind::EnumMember, detail, Documentation::Markdown(doc), insert,
                Some(InsertTextFormat::PlainText)));
            i = i + 1;
        }
        assert(items_view(out@) =~= enum_items(views(values@)));
        out
    }

    /// The type hint written after a completed property.
    pub fn type_info_to_hint(&self, type_info: &TypeInfo) -> (r: String)
        ensures
            r@ == type_hint(type_info@),
    {
        match type_info {
            TypeInfo::String { enum_values: Some(values), .. } => {
                let mut s = text("enum: ");
                let list = debug_list_text(values);
                s.append(list.as_str());
                s
            },
            TypeInfo::String { .. } => text("string"),
            TypeInfo::Integer { min, max } => match (min, max) {
                (Some(lo), Some(hi)) => {
                    let mut s = text("integer (");
                    s.append(i64_text(*lo).as_str());
                    s.append(" - ");
                    s.append(i64_text(*hi).as_str());
                    s.append(")");
                    s
                },
                _ => text("integer"),
            },
            TypeInfo::Float { .. } => text("float"),
            TypeInfo::Boolean => text("boolean"),
            TypeInfo::Array { .. } => text("array"),
            TypeInfo::Object { .. } => text("object"),
        }
    }

    /// The value a completed property gets when its schema gives no default.
    pub fn type_info_to_default(&self, type_info: &TypeInfo) -> (r: String)
        ensures
            r@ == type_default(type_info@),
    {
        match type_info {
            TypeInfo::String { enum_values: Some(values), .. } => {
                if values.len() > 0 {
                    let mut s = text("\"");
                    s.append(values[0].as_str());
                    s.append("\"");
                    s
                } else {
                    text("\"\"")
                }
            },
            TypeInfo::String { .. } => text("\"\""),
            TypeInfo::Integer { .. } => text("0"),
            TypeInfo::Float { .. } => text("0.0"),
            TypeInfo::Boolean => text("false"),
            TypeInfo::Array { .. } => text("[]"),
            TypeInfo::Object { .. } => text("{}"),
        }
    }

    /// How a schema default is written into a completed property.
    pub fn value_to_string(&self, value: &Value) -> (r: String)
        ensures
            r@ == value_text(value@),
    {
        match value {
            Value::String(s) => {
                let mut t = text("\"");
                t.append(s.as_str());
                t.append("\"");
                t
            },
            Value::Integer(i) => i64_text(*i),
            Value::Float(f) => text(f.as_str()),
            Value::Boolean(b) => if *b { text("true") } else { text("false") },
            Value::Array(_) => text("[]"),
            Value::Table(_) => text("{}"),
        }
    }

    fn property_completion(&self, ps: &PropertySchema) -> (r: CompletionItem)
        ensures
            r@ == property_item(ps@),
    {
        let hint = self.type_info_to_hint(&ps.type_info);
        let value = match &ps.default {
            Some(d) => self.value_to_string(d),
            None => self.type_info_to_default(&ps.type_info),
        };
        let name = ps.name.as_str();
        let mut insert = text(name);
        insert.append(" = ");
        insert.append(value.as_str());
        insert.append("  # ");
        insert.append(hint.as_str());
        let mut parts: Vec<String> = Vec::new();
        if !ps.description.as_str().is_empty() {
            parts.push(ps.description.clone());
        }
        let mut type_part = text("**类型**: `");
        type_part.append(hint.as_str());
        type_part.append("`");
        parts.push(type_part);
        match &ps.default {
            Some(d) => {
                let mut default_part = text("**默认值**: `");
                default_part.append(self.value_to_string(d).as_str());
                default_part.append("`");
                parts.push(default_part);
            },
            None => {},
        }
        if ps.required {
            parts.push(text("**必需**: 是"));
        }
        match &ps.deprecated {
            Some(m) => {
                let mut deprecated_part = text("**已废弃**: ");
                deprecated_part.append(m.as_str());
                parts.push(deprecated_part);
            },
            None => {},
        }
        assert(views(parts@) =~= property_doc_parts(ps@));
        let doc = join_strings(&parts, "\n\n");
        let mut detail = text(name);
        detail.append(": ");
        detail.append(hint.as_str());
        CompletionItem {
            label: text(name),
            kind: Some(CompletionItemKind::Property),
            detail: Some(detail),
            documentation: Some(Documentation::Markdown(doc)),
            insert_text: Some(insert),
            insert_text_format: Some(InsertTextFormat::PlainText),
            deprecated: if ps.deprecated.is_some() { Some(true) } else { None },
        }
    }

    /// The completions of the properties a section does not set yet, in
    /// schema order: exactly the schema's properties whose names the section
    /// does not use, each once where the schema names each property once.
    pub fn complete_config_properties(&self, section: &ConfigSection) -> (r: Vec<CompletionItem>)
        ensures
            items_view(r@) == property_items(self.schema(), *section),
            forall|k: int| 0 <= k < r@.len() ==> !section_keys(section.properties@).contains(#[trigger] r@[k].label@),
            match plugin_properties(self.schema(), section.prefix@) {
                Some(sps) => forall|j: int| 0 <= j < sps.len() && !section_keys(section.properties@).contains(
                    #[trigger] sps[j].name) ==> exists|k: int| 0 <= k < r@.len() && r@[k].label@ == sps[j].name,
                None => r@.len() == 0,
            },
            self.wf() ==> forall|a: int, b: int| 0 <= a < b < r@.len() ==> (#[trigger] r@[a]).label@ != (#[trigger] r@[b]).label@,
    {
        let plugin = match self.toml_analyzer.schema_provider().get_plugin(section.prefix.as_str()) {
            Some(p) => p,
            None => {
                let empty: Vec<CompletionItem> = Vec::new();
                assert(items_view(empty@) =~= seq![]);
                return empty;
            },
        };
        let ghost sps = props_view(plugin.properties@);
        let ghost used = section_keys(section.properties@);
        let mut out: Vec<CompletionItem> = Vec::new();
        let mut i: usize = 0;
        while i < plugin.properties.len()
            invariant
                sps == props_view(plugin.properties@),
                used == section_keys(section.properties@),
                i <= sps.len(),
                items_view(out@) == unused_items(sps.take(i as int), used),
            decreases sps.len() - i,
        {
            proof {
                assert(sps.take(i + 1).drop_last() =~= sps.take(i as int));
                assert(sps.take(i + 1).last() == plugin.properties@[i as int]@);
            }
            let ps = &plugin.properties[i];
            if !has_key(&section.properties, ps.name.as_str()) {
                let c = self.property_completion(ps);
                out.push(c);
                assert(items_view(out@) =~= items_view(out@.drop_last()).push(c@));
            }
            i = i + 1;
        }
        proof {
            assert(sps.take(sps.len() as int) =~= sps);
            lemma_unused_labels(sps, used);
            assert forall|k: int| 0 <= k < out@.len() implies #[trigger] out@[k].label@ == items_view(out@)[k].label by {}
            if self.wf() {
                law_property_completions_distinct(self.schema(), *section);
                assert(items_view(out@) == property_items(self.schema(), *section));
                assert forall|a: int, b: int| 0 <= a < b < out@.len() implies (#[trigger] out@[a]).label@ != (#[trigger] out@[b]).label@ by {
                    assert(out@[a].label@ == items_view(out@)[a].label);
                    assert(out@[b].label@ == items_view(out@)[b].label);
                }
            }
        }
        out
    }
}

proof fn lemma_section_index_at(ss: Seq<ConfigSection>, pos: Position)
    ensures
        match section_index_at(ss, pos) {
            Some(i) => 0 <= i < ss.len() && spec_position_in_range(pos, ss[i].range) && forall|k: int|
                0 <= k < i ==> !spec_position_in_range(pos, #[trigger] ss[k].range),
            None => forall|k: int| 0 <= k < ss.len() ==> !spec_position_in_range(pos, #[trigger] ss[k].range),
        },
    decreases ss.len(),
{
    if ss.len() > 0 {
        lemma_section_index_at(ss.drop_first(), pos);
        assert forall|k: int| 1 <= k < ss.len() implies #[trigger] ss[k] == ss.drop_first()[k - 1] by {}
    }
}

proof fn lemma_property_name_at(ps: Seq<(String, ConfigProperty)>, pos: Position)
    ensures
        match property_name_at(ps, pos) {
            Some(name) => exists|i: int| 0 <= i < ps.len() && spec_position_in_range(pos, ps[i].1.range)
                && ps[i].0@ == name && forall|k: int| 0 <= k < i ==> !spec_position_in_range(pos, #[trigger] ps[k].1.range),
            None => forall|k: int| 0 <= k < ps.len() ==> !spec_position_in_range(pos, #[trigger] ps[k].1.range),
        },
    decreases ps.len(),
{
    if ps.len() > 0 {
        lemma_property_name_at(ps.drop_first(), pos);
        assert forall|k: int| 1 <= k < ps.len() implies #[trigger] ps[k] == ps.drop_first()[k - 1] by {}
        if !spec_position_in_range(pos, ps[0].1.range) {
            if let Some(name) = property_name_at(ps.drop_first(), pos) {
                let i = choose|i: int| 0 <= i < ps.drop_first().len() && spec_position_in_range(pos, ps.drop_first()[i].1.range)
                    && ps.drop_first()[i].0@ == name && forall|k: int| 0 <= k < i ==> !spec_position_in_range(pos, #[trigger] ps.drop_first()[k].1.range);
                assert(ps[i + 1] == ps.drop_first()[i]);
                assert forall|k: int| 0 <= k < i + 1 implies !spec_position_in_range(pos, #[trigger] ps[k].1.range) by {
                    if k > 0 {
                        assert(ps[k] == ps.drop_first()[k - 1]);
                    }
                }
            }
        }
    }
}

impl CompletionEngine {
    /// Whether the cursor is where a section header is being typed.
    fn is_prefix_position(&self, doc: &TomlDocument, position: Position) -> (r: bool)
        requires
            valid_cursor(doc.content@, position),
        ensures
            r == spec_prefix_position(doc.content@, position),
    {
        let lines = split_lines(doc.content.as_str());
        let li = position.line as usize;
        if li >= lines.len() {
            return false;
        }
        let line = &lines[li];
        let ghost lv = line@;
        assert(lv == lines_of(doc.content@)[li as int]);
        let cp = position.character as u64;
        let mut k: usize = 0;
        let mut acc: u64 = 0;
        proof {
            assert(lv.take(0) =~= seq![]);
        }
        while k < line.len() && acc + (char_utf8_width(line[k]) as u64) <= cp
            invariant
                lv == line@,
                k <= lv.len(),
                acc == utf8_len(lv.take(k as int)),
                acc <= cp,
                cp <= u32::MAX,
                chars_before_from(lv, cp as nat, 0) == chars_before_from(lv, cp as nat, k as nat),
            decreases lv.len() - k,
        {
            proof {
                assert(lv.take(k + 1).drop_last() =~= lv.take(k as int));
            }
            acc = acc + char_utf8_width(line[k]) as u64;
            k = k + 1;
        }
        proof {
            if k < lv.len() {
                assert(lv.take(k + 1).drop_last() =~= lv.take(k as int));
            }
            assert(chars_before_from(lv, cp as nat, k as nat) == k);
            assert(text_before(lv, cp as nat) == lv.take(k as int));
        }
        if k == line.len() && acc < cp {
            proof {
                assert(lv.take(k as int) =~= lv);
            }
            return false;
        }
        proof {
            if k < lv.len() {
                lemma_utf8_len_take_mono(lv, k as int + 1);
            } else {
                assert(lv.take(k as int) =~= lv);
            }
        }
        let ghost before = lv.take(k as int);
        let mut j: usize = 0;
        proof {
            assert(before.subrange(0, k as int) =~= before);
        }
        while j < k && is_whitespace(line[j])
            invariant
                lv == line@,
                before == lv.take(k as int),
                k <= lv.len(),
                j <= k,
                trim_start(before) == trim_start(before.subrange(j as int, k as int)),
            decreases k - j,
        {
            proof {
                let sub = before.subrange(j as int, k as int);
                assert(sub.drop_first() =~= before.subrange(j + 1, k as int));
                assert(sub[0] == line@[j as int]);
            }
            j = j + 1;
        }
        proof {
            let sub = before.subrange(j as int, k as int);
            if j < k {
                assert(sub[0] == line@[j as int]);
            }
            assert(trim_start(sub) == sub);
        }
        if !(j < k && line[j] == '[') {
            return false;
        }
        let mut m: usize = 0;
        while m < line.len()
            invariant
                lv == line@,
                (position.line as int) < lines_of(doc.content@).len(),
                lv == lines_of(doc.content@)[position.line as int],
                m <= lv.len(),
                forall|q: int| 0 <= q < m ==> lv[q] != ']',
            decreases lv.len() - m,
        {
            if line[m] == ']' {
                assert(lv.contains(']'));
                return false;
            }
            m = m + 1;
        }
        assert(!lv.contains(']'));
        true
    }

    /// Whether the cursor is inside an environment variable reference; no
    /// position is recognised as one yet.
    fn is_env_var_position(&self, doc: &TomlDocument, position: Position) -> (r: bool)
        ensures
            !r,
    {
        false
    }

    /// The first section whose range holds the position.
    fn find_section_at_position<'a>(&self, doc: &'a TomlDocument, position: Position) -> (r: Option<&'a ConfigSection>)
        ensures
            match section_index_at(doc.config_sections@, position) {
                Some(i) => r == Some(&doc.config_sections@[i]),
                None => r is None,
            },
    {
        proof {
            lemma_section_index_at(doc.config_sections@, position);
        }
        let mut i: usize = 0;
        while i < doc.config_sections.len()
            invariant
                i <= doc.config_sections@.len(),
                forall|k: int| 0 <= k < i ==> !spec_position_in_range(position, #[trigger] doc.config_sections@[k].range),
                match section_index_at(doc.config_sections@, position) {
                    Some(q) => 0 <= q < doc.config_sections@.len() && spec_position_in_range(position, doc.config_sections@[q].range)
                        && forall|k: int| 0 <= k < q ==> !spec_position_in_range(position, #[trigger] doc.config_sections@[k].range),
                    None => forall|k: int| 0 <= k < doc.config_sections@.len() ==> !spec_position_in_range(position,
                        #[trigger] doc.config_sections@[k].range),
                },
            decreases doc.config_sections@.len() - i,
        {
            if position_in_range(position, doc.config_sections[i].range) {
                return Some(&doc.config_sections[i]);
            }
            i = i + 1;
        }
        None
    }

    /// The name of the first property of the section whose range holds the
    /// position.
    fn find_property_at_position(&self, section: &ConfigSection, position: Position) -> (r: Option<String>)
        ensures
            match r {
                Some(s) => property_name_at(section.properties@, position) == Some(s@),
                None => property_name_at(section.properties@, position) is None,
            },
    {
        proof {
            lemma_property_name_at(section.properties@, position);
        }
        let ghost ps = section.properties@;
        let mut i: usize = 0;
        while i < section.properties.len()
            invariant
                ps == section.properties@,
                i <= ps.len(),
                forall|k: int| 0 <= k < i ==> !spec_position_in_range(position, #[trigger] ps[k].1.range),
                match property_name_at(ps, position) {
                    Some(name) => exists|q: int| 0 <= q < ps.len() && spec_position_in_range(position, ps[q].1.range)
                        && ps[q].0@ == name && forall|k: int| 0 <= k < q ==> !spec_position_in_range(position, #[trigger] ps[k].1.range),
                    None => forall|k: int| 0 <= k < ps.len() ==> !spec_position_in_range(position, #[trigger] ps[k].1.range),
                },
            decreases ps.len() - i,
        {
            if position_in_range(position, section.properties[i].1.range) {
                proof {
                    if let Some(name) = property_name_at(ps, position) {
                        let q = choose|q: int| 0 <= q < ps.len() && spec_position_in_range(position, ps[q].1.range)
                            && ps[q].0@ == name && forall|k: int| 0 <= k < q ==> !spec_position_in_range(position, #[trigger] ps[k].1.range);
                        assert(q == i);
                    }
                }
                return Some(section.properties[i].0.clone());
            }
            i = i + 1;
        }
        None
    }

    fn complete_toml(&self, doc: &TomlDocument, position: Position) -> (r: Vec<CompletionItem>)
        requires
            valid_cursor(doc.content@, position),
        ensures
            items_view(r@) == toml_items(self.schema(), *doc, position),
    {
        if self.is_prefix_position(doc, position) {
            return self.complete_config_prefix();
        }
        if self.is_env_var_position(doc, position) {
            return self.complete_env_var();
        }
        match self.find_section_at_position(doc, position) {
            Some(section) => {
                match self.find_property_at_position(section, position) {
                    Some(name) => {
                        match self.toml_analyzer.schema_provider().get_plugin(section.prefix.as_str()) {
                            Some(plugin) => match find_schema_prop(&plugin.properties, name.as_str()) {
                                Some(ps) => match &ps.type_info {
                                    TypeInfo::String { enum_values: Some(values), .. } => {
                                        return self.complete_enum_values(values);
                                    },
                                    _ => {},
                                },
                                None => {},
                            },
                            None => {},
                        }
                    },
                    None => {},
                }
                self.complete_config_properties(section)
            },
            None => {
                let empty: Vec<CompletionItem> = Vec::new();
                assert(items_view(empty@) =~= seq![]);
                empty
            },
        }
    }

    /// The completions in a configuration file at the cursor.
    pub fn complete_toml_document(&self, doc: &TomlDocument, position: Position) -> (r: Vec<CompletionItem>)
        requires
            valid_cursor(doc.content@, position),
        ensures
            items_view(r@) == toml_items(self.schema(), *doc, position),
    {
        self.complete_toml(doc, position)
    }

    /// The completions for a request: configuration completions for a
    /// configuration file, macro argument completions for a macro, nothing
    /// when what the context needs is missing.
    pub fn complete(
        &self,
        context: CompletionContext,
        position: Position,
        toml_doc: Option<&TomlDocument>,
        macro_info: Option<&SummerMacro>,
    ) -> (r: Vec<CompletionItem>)
        requires
            context is Toml ==> match toml_doc {
                Some(d) => valid_cursor(d.content@, position),
                None => true,
            },
        ensures
            match context {
                CompletionContext::Toml => match toml_doc {
                    Some(d) => items_view(r@) == toml_items(self.schema(), *d, position),
                    None => r@.len() == 0,
                },
                CompletionContext::Macro => match macro_info {
                    Some(m) => items_view(r@) == macro_items(*m),
                    None => r@.len() == 0,
                },
                CompletionContext::Unknown => r@.len() == 0,
            },
    {
        match context {
            CompletionContext::Toml => match toml_doc {
                Some(doc) => self.complete_toml(doc, position),
                None => Vec::new(),
            },
            CompletionContext::Macro => match macro_info {
                Some(m) => self.complete_macro(m, None),
                None => Vec::new(),
            },
            CompletionContext::Unknown => Vec::new(),
        }
    }
}

impl Default for CompletionEngine {
    /// An engine completing against the built-in schema.
    fn default() -> (r: CompletionEngine)
        ensures
            r.schema().plugin(lit("web")) matches Some(w) && json_view(w) == fallback_web(),
            r.schema().plugin(lit("redis")) matches Some(w) && json_view(w) == fallback_redis(),
            forall|p: Seq<char>| p != lit("web") && p != lit("redis") ==> r.schema().plugin(p) is None,
    {
        Self::new(SchemaProvider::default())
    }
}

// ----- values written into configuration files -----

/// How a JSON value is written in a configuration file: strings quoted,
/// numbers and booleans as they are, arrays and objects as empty ones.
pub open spec fn json_toml_text(v: JsonValue) -> Seq<char> {
    match v {
        JsonValue::String(s) => "\""@ + s@ + "\""@,
        JsonValue::Number(n) => match n.as_i64 {
            Some(i) => int_text(i as int),
            None => match n.as_u64 {
                Some(u) => nat_digits(u as nat),
                None => n.float_text@,
            },
        },
        JsonValue::Bool(b) => bool_text(b),
        JsonValue::Array(_) => "[]"@,
        JsonValue::Object(_) => "{}"@,
        JsonValue::Null => "null"@,
    }
}

/// The empty value of a JSON Schema type name, as written in a
/// configuration file; an empty string for an unknown name.
pub open spec fn type_name_default(t: Seq<char>) -> Seq<char> {
    if t == "string"@ {
        "\"\""@
    } else if t == "integer"@ || t == "number"@ {
        "0"@
    } else if t == "boolean"@ {
        "false"@
    } else if t == "array"@ {
        "[]"@
    } else if t == "object"@ {
        "{}"@
    } else {
        "\"\""@
    }
}

impl CompletionEngine {
    /// How a JSON value is written in a configuration file.
    #[allow(dead_code)]
    fn json_value_to_toml_string(&self, value: &JsonValue) -> (r: String)
        ensures
            r@ == json_toml_text(*value),
    {
        match value {
            JsonValue::String(s) => {
                let mut t = text("\"");
                t.append(s.as_str());
                t.append("\"");
                t
            },
            JsonValue::Number(n) => match n.as_i64 {
                Some(i) => i64_text(i),
                None => match n.as_u64 {
                    Some(u) => u64_text(u),
                    None => n.float_text.clone(),
                },
            },
            JsonValue::Bool(b) => if *b { text("true") } else { text("false") },
            JsonValue::Array(_) => text("[]"),
            JsonValue::Object(_) => text("{}"),
            JsonValue::Null => text("null"),
        }
    }

    /// The empty value of a JSON Schema type name.
    #[allow(dead_code)]
    fn type_to_default_value(&self, ty_name: &str) -> (r: String)
        ensures
            r@ == type_name_default(ty_name@),
    {
        if str_eq(ty_name, "string") {
            text("\"\"")
        } else if str_eq(ty_name, "integer") || str_eq(ty_name, "number") {
            text("0")
        } else if str_eq(ty_name, "boolean") {
            text("false")
        } else if str_eq(ty_name, "array") {
            text("[]")
        } else if str_eq(ty_name, "object") {
            text("{}")
        } else {
            text("\"\"")
        }
    }
}

} // verus!
