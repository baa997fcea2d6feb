use driver_doctor::markdown::{markdown_lines, MarkdownLine};

fn show(md: &str) -> Vec<String> {
    markdown_lines(md)
        .into_iter()
        .map(|l| match l {
            MarkdownLine::Gap => "gap".to_string(),
            MarkdownLine::Code(s) => format!("code:{s}"),
            MarkdownLine::Minor(s) => format!("minor:{s}"),
            MarkdownLine::Heading(s) => format!("h:{s}"),
            MarkdownLine::Cells(v) => format!("cells:{}", v.join("/")),
            MarkdownLine::Bullet(s) => format!("bullet:{s}"),
            MarkdownLine::Text(s) => format!("text:{s}"),
        })
        .collect()
}

#[test]
fn answers_are_laid_out_by_line_kind() {
    let md = "# 标题\n## **占用**报告\n### 小节\n\n- 第一项 `a`\n* 第二项<br>续\n| 路径 | 大小 |\n|---|:-:|\n| C:\\x | 1 GB |\n普通 **粗体** 文本";
    assert_eq!(
        show(md),
        [
            "h:标题",
            "h:占用报告",
            "minor:小节",
            "gap",
            "bullet:第一项 a",
            "bullet:第二项 续",
            "cells:路径/大小",
            "cells:C:\\x/1 GB",
            "text:普通 粗体 文本",
        ]
    );
}

#[test]
fn code_blocks_are_kept_as_written() {
    let md = "```bat\n  del **x**\n\n```\n#### 四级";
    assert_eq!(show(md), ["code:  del **x**", "gap", "text:#### 四级"]);
}

#[test]
fn table_rows_keep_empty_cells() {
    assert_eq!(show("|| a ||"), ["cells:a"]);
    assert_eq!(show("| a | | b |"), ["cells:a//b"]);
    assert!(show("").is_empty());
}
