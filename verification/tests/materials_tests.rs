use std::io::Write;
use wechat_writer::materials::{chunk_text, extract_text, pdf_to_read, ExtractStage, MaterialLibrary};

#[test]
fn chunk_short_text() {
    let chunks = chunk_text("这是一段短文本", 2000);
    assert_eq!(chunks.len(), 1);
    assert_eq!(chunks[0], "这是一段短文本");
}

#[test]
fn chunk_long_text_splits() {
    let long = "word ".repeat(5000);
    let chunks = chunk_text(&long, 2000);
    assert!(chunks.len() > 1);
}

#[test]
fn chunk_paragraphs() {
    let text = "第一段\n\n第二段\n\n第三段";
    let chunks = chunk_text(text, 2000);
    assert_eq!(chunks.len(), 1);
    assert!(chunks[0].contains("第一段"));
    assert!(chunks[0].contains("第三段"));
}

#[test]
fn library_context_empty() {
    let lib = MaterialLibrary::new();
    assert!(lib.is_empty());
    assert_eq!(lib.build_context(), "");
}

#[test]
fn library_context_with_material() {
    let mut lib = MaterialLibrary::new();
    lib.add_text("公告.txt", "这是一份官方公告内容。");
    let ctx = lib.build_context();
    assert!(ctx.contains("公告.txt"));
    assert!(ctx.contains("官方公告"));
}

#[test]
fn library_context_truncation() {
    let mut lib = MaterialLibrary::new();
    lib.add_text("大文件.txt", &"内容内容".repeat(1000));
    let ctx = lib.build_context_with_limit(100);
    assert!(ctx.len() <= 200);
}

#[test]
fn extract_txt_file() {
    let data = b"hello world";
    let text = extract_text("test.txt", data, None).unwrap();
    assert!(text.contains("hello world"));
}

#[test]
fn chunk_paragraphs_joined_exactly() {
    let chunks = chunk_text("第一段\n\n第二段", 2000);
    assert_eq!(chunks, vec!["第一段\n\n第二段".to_string()]);
}

#[test]
fn chunk_oversized_paragraph_splits_on_words() {
    // each word is 4 bytes plus a space; 10 bytes hold two words
    let chunks = chunk_text("aaaa bbbb cccc dddd", 10);
    assert_eq!(chunks, vec!["aaaa bbbb".to_string(), "cccc dddd".to_string()]);
}

#[test]
fn chunk_paragraph_overflow_starts_new_chunk() {
    let chunks = chunk_text("abcdef\n\nghijkl", 10);
    assert_eq!(chunks, vec!["abcdef".to_string(), "ghijkl".to_string()]);
}

#[test]
fn context_exact_layout() {
    let mut lib = MaterialLibrary::new();
    lib.add_text("a.txt", "正文");
    assert_eq!(lib.build_context(), "[参考资料]\n--- 素材: a.txt ---\n正文\n\n");
}

#[test]
fn context_stops_when_header_does_not_fit() {
    let mut lib = MaterialLibrary::new();
    lib.add_text("a.txt", "正文");
    // the header alone takes 22 bytes
    assert_eq!(lib.build_context_with_limit(10), "");
}

#[test]
fn context_truncates_long_chunk_with_ellipsis() {
    let mut lib = MaterialLibrary::new();
    lib.add_text("a", "abcdefghijklmnopqrstuvwxyz");
    // the header "--- 素材: a ---\n" takes 18 bytes, leaving 12; the chunk is cut to 9
    let ctx = lib.build_context_with_limit(30);
    assert_eq!(ctx, "[参考资料]\n--- 素材: a ---\nabcdefghi...\n\n");
}

#[test]
fn extract_markdown_is_decoded_lossily() {
    let text = extract_text("notes.MD", &[0x68, 0x69, 0xff], None).unwrap();
    assert_eq!(text, "hi\u{fffd}");
}

#[test]
fn extract_docx_reads_paragraph_text() {
    let mut buf = std::io::Cursor::new(Vec::new());
    {
        let mut zw = zip::ZipWriter::new(&mut buf);
        zw.start_file("word/document.xml", zip::write::SimpleFileOptions::default()).unwrap();
        zw.write_all(
            "<w:document><w:body><w:p><w:r><w:t>第一段</w:t></w:r></w:p><w:p><w:r><w:t xml:space=\"preserve\">A &amp; B</w:t></w:r></w:p></w:body></w:document>"
                .as_bytes(),
        )
        .unwrap();
        zw.finish().unwrap();
    }
    let text = extract_text("report.docx", buf.get_ref(), None).unwrap();
    assert_eq!(text, "第一段\n\nA & B");
}

#[test]
fn extract_docx_that_is_not_a_zip_fails() {
    let err = extract_text("bad.docx", b"not a zip", None).unwrap_err();
    assert_eq!(err.stage, ExtractStage::DocxArchive);
    assert!(err.message().starts_with("无法打开 docx: "));
}

#[test]
fn extract_docx_without_document_fails() {
    let mut buf = std::io::Cursor::new(Vec::new());
    {
        let mut zw = zip::ZipWriter::new(&mut buf);
        zw.start_file("other.xml", zip::write::SimpleFileOptions::default()).unwrap();
        zw.write_all(b"x").unwrap();
        zw.finish().unwrap();
    }
    let err = extract_text("empty.docx", buf.get_ref(), None).unwrap_err();
    assert_eq!(err.stage, ExtractStage::DocxEntry);
    assert!(err.message().starts_with("docx 中找不到 word/document.xml: "));
}

#[test]
fn extract_pdf_garbage_fails() {
    let data: &[u8] = b"%PDF-garbage";
    assert!(pdf_to_read("x.pdf", data.len()));
    let outcome = pdf_extract::extract_text_from_mem(data).map_err(|e| e.to_string());
    assert!(outcome.is_err());
    let err = extract_text("x.pdf", data, Some(outcome)).unwrap_err();
    assert_eq!(err.stage, ExtractStage::Pdf);
    assert!(err.message().starts_with("PDF 文本提取失败: "));
    let err = extract_text("x.pdf", data, None).unwrap_err();
    assert_eq!(err.message(), "PDF 文本提取失败: ");
    let text = extract_text("Y.PDF", data, Some(Ok("正文".to_string()))).unwrap();
    assert_eq!(text, "正文");
}

#[test]
fn extract_pdf_over_ten_megabytes_is_refused() {
    let data = vec![0u8; 10 * 1024 * 1024 + 1];
    assert!(!pdf_to_read("big.pdf", data.len()));
    let err = extract_text("big.pdf", &data, Some(Ok("unused".to_string()))).unwrap_err();
    assert_eq!(err.stage, ExtractStage::PdfTooLarge);
    assert_eq!(err.message(), "PDF 文件超过 10MB，请压缩或拆分后再上传");
}

#[test]
fn extension_case_does_not_matter() {
    let err = extract_text("REPORT.DOCX", b"plain text", None).unwrap_err();
    assert_eq!(err.stage, ExtractStage::DocxArchive);
}

#[test]
fn oversized_word_stays_whole() {
    let text = format!("{} y", "x".repeat(30));
    let chunks = chunk_text(&text, 10);
    assert_eq!(chunks, vec!["x".repeat(30), "y".to_string()]);
    for c in &chunks {
        assert!(c.len() <= 10 || !c.trim().contains(char::is_whitespace));
    }
}

#[test]
fn context_stays_near_its_budget() {
    let mut lib = MaterialLibrary::new();
    lib.add_text("一.txt", &"甲乙丙丁".repeat(50));
    lib.add_text("二.txt", "短");
    lib.add_text("三.txt", &"word ".repeat(100));
    for limit in [0usize, 1, 3, 30, 50, 200, 700] {
        let ctx = lib.build_context_with_limit(limit);
        assert!(ctx.len() <= limit + 4 + 3 + 15, "limit {limit}: {} bytes", ctx.len());
    }
}
