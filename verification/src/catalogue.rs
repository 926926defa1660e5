//! The tools offered to the model: each one's name, description, JSON
//! schema of its arguments, and whether the schema is strict.
use vstd::prelude::*;
use crate::tools::tool_named;

verus! {

/// A tool as the model is told of it.
pub struct ToolSpec {
    /// The name the model calls it by.
    pub name: &'static str,
    /// What the tool is for, as the model reads it.
    pub description: &'static str,
    /// The JSON schema of its arguments.
    pub parameters: &'static str,
    /// Whether the model must keep to the schema exactly.
    pub strict: bool,
}

/// The names of the offered tools, in order.
pub open spec fn offered_names() -> Seq<Seq<char>> {
    seq!["get_num"@, "bash"@, "read"@, "write"@, "edit"@, "get_courses"@, "get_exam"@, "watch_shuiyuan"@, "pdf_analysis"@, "course_files"@, "watch_eduinfo"@, "mail_fetch"@]
}

/// The tools offered to the model, in order. The first, `get_num`, has no
/// handler (a call of it is answered as an unknown tool); every other one
/// selects a tool.
pub fn tool_specs() -> (specs: Vec<ToolSpec>)
    ensures
        specs@.map_values(|t: ToolSpec| t.name@) == offered_names(),
        specs@.map_values(|t: ToolSpec| t.strict) == seq![true, true, true, true, true, true, true, true, false, false, true, false],
        tool_named(specs@[0].name@) is None,
        forall|i: int| 1 <= i < specs@.len() ==> tool_named(#[trigger] specs@[i].name@) is Some,
{
    let specs = vec![
        ToolSpec {
            name: "get_num",
            description: "when user ask questions about somethings' number ,use this tool",
            parameters: "{\"type\": \"object\", \"properties\": {\"password\": {\"type\": \"string\", \"description\": \"check id about who use this tool\"}}, \"required\": [\"password\"], \"additionalProperties\": false}",
            strict: true,
        },
        ToolSpec {
            name: "bash",
            description: "在 bash 中执行命令，返回合并的 stdout/stderr。长时间任务放后台运行。",
            parameters: "{\"type\": \"object\", \"properties\": {\"command\": {\"type\": \"string\", \"description\": \"需要执行的命令\"}}, \"required\": [\"command\"], \"additionalProperties\": false}",
            strict: true,
        },
        ToolSpec {
            name: "read",
            description: "读文件，带行号返回。路径是目录则列出内容。大文件用 offset/limit 分段读。",
            parameters: "{\"type\": \"object\", \"properties\": {\"path\": {\"type\": \"string\", \"description\": \"绝对路径\"}, \"offset\": {\"type\": \"integer\", \"description\": \"起始行数,从1开始\"}, \"limit\": {\"type\": \"integer\", \"description\": \"读取行数\"}}, \"required\": [\"path\"], \"additionalProperties\": false}",
            strict: true,
        },
        ToolSpec {
            name: "write",
            description: "写入文件，已存在则覆盖，父目录自动创建。",
            parameters: "{\"type\": \"object\", \"properties\": {\"path\": {\"type\": \"string\", \"description\": \"绝对路径,父目录自动创建\"}, \"content\": {\"type\": \"string\", \"description\": \"要写入的完整内容\"}}, \"required\": [\"path\", \"content\"], \"additionalProperties\": false}",
            strict: true,
        },
        ToolSpec {
            name: "edit",
            description: "替换文本中已存在的一段内容",
            parameters: "{\"type\": \"object\", \"properties\": {\"path\": {\"type\": \"string\", \"description\": \"绝对路径\"}, \"old_context\": {\"type\": \"string\", \"description\": \"要替换的原文,需唯一\"}, \"new_context\": {\"type\": \"string\", \"description\": \"要替换的新文本\"}}, \"required\": [\"path\", \"old_context\", \"new_context\"], \"additionalProperties\": false}",
            strict: true,
        },
        ToolSpec {
            name: "get_courses",
            description: "查询当前账号在 Canvas@SJTU 上进行中的课程，返回课程 ID、名称与学期",
            parameters: "{\"type\": \"object\", \"properties\": {}, \"required\": [], \"additionalProperties\": false}",
            strict: true,
        },
        ToolSpec {
            name: "get_exam",
            description: "当用户给出课程名字时,先去查课程id,然后查询课程对应的作业描述,展示课程的名称,截止时间,分值,内容",
            parameters: "{\"type\": \"object\", \"properties\": {\"course_id\": {\"type\": \"string\", \"description\": \"课程id,每门课程id独一无二\"}}, \"required\": [\"course_id\"], \"additionalProperties\": false}",
            strict: true,
        },
        ToolSpec {
            name: "watch_shuiyuan",
            description: "打开名为水源社区的网页",
            parameters: "{\"type\": \"object\", \"properties\": {}, \"required\": [], \"additionalProperties\": false}",
            strict: true,
        },
        ToolSpec {
            name: "pdf_analysis",
            description: "读取 PDF 文件中的文字。页数少的会一次返回全文；页数多时先返回各页开头作为目录，再指定 start_page / end_page 读取需要的页面。",
            parameters: "{\"type\": \"object\", \"properties\": {\"path\": {\"type\": \"string\", \"description\": \"pdf文件的绝对路径\"}, \"start_page\": {\"type\": \"integer\", \"description\": \"起始页码,从1开始。不传表示从头开始\"}, \"end_page\": {\"type\": \"integer\", \"description\": \"结束页码,含该页。不传表示读到最后一页\"}}, \"required\": [\"path\"], \"additionalProperties\": false}",
            strict: false,
        },
        ToolSpec {
            name: "course_files",
            description: "查看某门课程在 Canvas 上的文件（讲义、课件、作业附件等）。可以列出文件、把文件下载到本地、或下载后用系统默认程序打开。",
            parameters: "{\"type\": \"object\", \"properties\": {\"course_id\": {\"type\": \"string\", \"description\": \"课程 id，可由 get_courses 获取\"}, \"action\": {\"type\": \"string\", \"enum\": [\"list\", \"download\", \"open\"], \"description\": \"list=列出文件;download=下载到本地;open=下载并用系统默认程序打开\"}, \"file\": {\"type\": \"string\", \"description\": \"文件名或其一部分，也可以直接给文件 id。action 为 download/open 时必需\"}, \"save_path\": {\"type\": \"string\", \"description\": \"保存的完整路径，不传则存到 ~/Downloads/<原文件名>\"}}, \"required\": [\"course_id\", \"action\"], \"additionalProperties\": false}",
            strict: false,
        },
        ToolSpec {
            name: "watch_eduinfo",
            description: "打开教学信息服务网",
            parameters: "{\"type\": \"object\", \"properties\": {}, \"required\": [], \"additionalProperties\": false}",
            strict: true,
        },
        ToolSpec {
            name: "mail_fetch",
            description: "通过 IMAP 读取学校邮箱。可以列出某个文件夹里的邮件、读取某一封的正文、或列出所有文件夹。只读，不会改动已读状态。",
            parameters: "{\"type\": \"object\", \"properties\": {\"action\": {\"type\": \"string\", \"enum\": [\"list\", \"read\", \"folders\"], \"description\": \"list=列出邮件;read=读某一封的正文;folders=列出所有文件夹\"}, \"folder\": {\"type\": \"string\", \"description\": \"文件夹名，默认 INBOX。用 action=folders 查看有哪些\"}, \"limit\": {\"type\": \"integer\", \"description\": \"list 时最多返回几封，默认 10，上限 50\"}, \"uid\": {\"type\": \"integer\", \"description\": \"action=read 时必填，来自 list 结果里的 UID\"}, \"unread_only\": {\"type\": \"boolean\", \"description\": \"list 时只列未读邮件\"}}, \"required\": [\"action\"], \"additionalProperties\": false}",
            strict: false,
        },
    ];
    proof {
        reveal_strlit("get_num");
        reveal_strlit("bash");
        reveal_strlit("read");
        reveal_strlit("write");
        reveal_strlit("edit");
        reveal_strlit("get_courses");
        reveal_strlit("get_exam");
        reveal_strlit("watch_shuiyuan");
        reveal_strlit("pdf_analysis");
        reveal_strlit("course_files");
        reveal_strlit("watch_eduinfo");
        reveal_strlit("mail_fetch");
        reveal_strlit("open_usual_website");
        assert("get_num"@.len() == 7);
        assert("get_num"@ != "bash"@ && "get_num"@ != "read"@ && "get_num"@ != "write"@ && "get_num"@
            != "edit"@ && "get_num"@ != "get_courses"@ && "get_num"@ != "get_exam"@ && "get_num"@
            != "watch_shuiyuan"@ && "get_num"@ != "pdf_analysis"@ && "get_num"@ != "course_files"@
            && "get_num"@ != "watch_eduinfo"@ && "get_num"@ != "mail_fetch"@ && "get_num"@
            != "open_usual_website"@);
    }
    assert(specs@.map_values(|t: ToolSpec| t.name@) =~= offered_names());
    assert(specs@.map_values(|t: ToolSpec| t.strict) =~= seq![true, true, true, true, true, true, true, true, false, false, true, false]);
    specs
}

} // verus!
