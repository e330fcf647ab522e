use content_safety::sanitizer::{sanitize_content, sanitize_for_db};

#[test]
fn test_sanitize_content() {
    // <script> should be removed entirely
    let result = sanitize_content("<script>alert('XSS')</script>");
    assert!(!result.to_lowercase().contains("<script"));
    assert!(!result.to_lowercase().contains("javascript:"));

    // Line breaks should be preserved
    let result = sanitize_content("This is a\nline break");
    assert!(result.contains("<br>"));

    // Basic formatting preserved
    let result = sanitize_content("<p>This is <b>bold</b> and <i>italic</i></p>");
    assert!(result.contains("<b>bold</b>"));

    // Plain strings stay intact
    let sql = "SELECT * FROM users WHERE username = 'admin' OR '1'='1';";
    let result = sanitize_content(sql);
    assert_eq!(result, sql);

    // Event handlers are stripped
    let result = sanitize_content("<img src=x onerror=\"alert(1)\">");
    assert!(!result.to_lowercase().contains("onerror"));

    // javascript: protocol is removed
    let result = sanitize_content("<a href=\"javascript:alert('XSS')\">Click me</a>");
    assert!(!result.to_lowercase().contains("javascript:"));

    // data: uri should not pass for src/href
    let result = sanitize_content("<img src=\"data:text/html,<script>alert(1)</script>\">");
    assert!(!result.to_lowercase().contains("data:"));
}

#[test]
fn sanitize_empty_is_empty() {
    assert_eq!(sanitize_content(""), "");
}

#[test]
fn sanitize_is_idempotent_on_samples() {
    let samples = [
        "",
        "plain text",
        "line one\nline two\n",
        "<p>This is <b>bold</b></p>",
        "<script>alert(1)</script>after",
        "a < b && c > d",
        "<a href=\"https://example.org/x?y=1&z=2\" onclick=\"x()\">link</a>",
        "<a href=\"javascript:alert(1)\">bad</a>",
        "<img src=x onerror=alert(1)>",
        "<ul><li>one<li>two</ul>",
        "<b>unclosed",
        "这里有国家机密 & <i>更多</i>",
    ];
    for sample in samples {
        let once = sanitize_content(sample);
        let twice = sanitize_content(&once);
        assert_eq!(twice, once, "input: {:?}", sample);
    }
}

#[test]
fn sanitize_writes_a_newline_reference_as_a_newline() {
    // The reference is markup, not a line end of the text: it is decoded by the
    // parser and written out as the character it names.
    assert_eq!(sanitize_content("a&#10;b"), "a\nb");
    assert_eq!(sanitize_content("<pre>x&#xa;y</pre>"), "<pre>x\ny</pre>");
}

#[test]
fn sanitize_keeps_allowed_structure() {
    assert_eq!(sanitize_content("<p>This is <b>bold</b></p>"), "<p>This is <b>bold</b></p>");
}

#[test]
fn sanitize_turns_newlines_into_breaks() {
    assert_eq!(sanitize_content("a\nb"), "a<br>b");
    assert_eq!(sanitize_content("\n"), "<br>");
    assert_eq!(sanitize_content("a\n\nb\n"), "a<br><br>b<br>");
}

#[test]
fn sanitize_removes_script_with_its_content() {
    assert_eq!(sanitize_content("before<script>alert('x')</script>after"), "beforeafter");
    assert_eq!(sanitize_content("<style>p { color: red }</style>text"), "text");
}

#[test]
fn sanitize_removes_disallowed_elements_but_keeps_their_text() {
    assert_eq!(sanitize_content("<div>kept</div>"), "kept");
    assert_eq!(sanitize_content("<h1>title</h1>"), "title");
    assert_eq!(sanitize_content("<img src=\"https://example.org/x.png\">"), "");
}

#[test]
fn sanitize_drops_script_vectors() {
    let inputs = [
        "<script>alert(1)</script>",
        "<SCRIPT>alert(1)</SCRIPT>",
        "<ScRiPt>alert(1)</sCrIpT>",
        "<script >alert(1)</script >",
        "<img src=x onerror=alert(1)>",
        "<IMG SRC=x OnErRoR=alert(1)>",
        "<p onclick=\"alert(1)\">x</p>",
        "<a href=\"javascript:alert(1)\">x</a>",
        "<a href=\"JaVaScRiPt:alert(1)\">x</a>",
        "<a href=\" javascript:alert(1)\">x</a>",
        "<a href=\"java\tscript:alert(1)\">x</a>",
        "<a href=\"vbscript:msgbox(1)\">x</a>",
        "<a href=\"data:text/html,<script>alert(1)</script>\">x</a>",
        "<iframe src=\"https://example.org\"></iframe>",
        "<object data=\"x\"></object><embed src=\"x\">",
        "<svg onload=alert(1)>",
    ];
    for input in inputs {
        let out = sanitize_content(input).to_lowercase();
        assert!(!out.contains("<script"), "input: {:?}, output: {:?}", input, out);
        assert!(!out.contains("onerror"), "input: {:?}, output: {:?}", input, out);
        assert!(!out.contains("onclick"), "input: {:?}, output: {:?}", input, out);
        assert!(!out.contains("onload"), "input: {:?}, output: {:?}", input, out);
        assert!(!out.contains("script:"), "input: {:?}, output: {:?}", input, out);
        assert!(!out.contains("data:"), "input: {:?}, output: {:?}", input, out);
        assert!(!out.contains("<iframe"), "input: {:?}, output: {:?}", input, out);
        assert!(!out.contains("<object"), "input: {:?}, output: {:?}", input, out);
        assert!(!out.contains("<embed"), "input: {:?}, output: {:?}", input, out);
        assert!(!out.contains("<svg"), "input: {:?}, output: {:?}", input, out);
    }
}

#[test]
fn sanitize_keeps_only_allowed_attributes() {
    assert_eq!(
        sanitize_content("<p title=\"t\" style=\"color:red\" class=\"c\" id=\"i\">x</p>"),
        "<p title=\"t\">x</p>"
    );
    assert_eq!(sanitize_content("<b onmouseover=\"x()\">y</b>"), "<b>y</b>");
}

#[test]
fn sanitize_marks_links_and_checks_their_scheme() {
    assert_eq!(
        sanitize_content("<a href=\"https://example.org/\">x</a>"),
        "<a href=\"https://example.org/\" rel=\"nofollow noreferrer noopener\">x</a>"
    );
    assert_eq!(
        sanitize_content("<a href=\"mailto:someone@example.org\">x</a>"),
        "<a href=\"mailto:someone@example.org\" rel=\"nofollow noreferrer noopener\">x</a>"
    );
    assert_eq!(
        sanitize_content("<a href=\"ftp://example.org/\">x</a>"),
        "<a rel=\"nofollow noreferrer noopener\">x</a>"
    );
    assert_eq!(
        sanitize_content("<a href=\"javascript:alert(1)\" rel=\"author\" hreflang=\"en\">x</a>"),
        "<a rel=\"nofollow noreferrer noopener\">x</a>"
    );
}

#[test]
fn sanitize_escapes_plain_text() {
    assert_eq!(sanitize_content("a < b & c > d"), "a &lt; b &amp; c &gt; d");
    assert_eq!(sanitize_content("1 <2"), "1 &lt;2");
}

#[test]
fn sanitize_for_db_trims_and_removes_sql_markers() {
    assert_eq!(sanitize_for_db("  hello  "), "hello");
    assert_eq!(sanitize_for_db("a;b;c"), "abc");
    assert_eq!(sanitize_for_db("1 -- comment"), "1  comment");
    assert_eq!(sanitize_for_db("a /* b */ c"), "a  b  c");
    assert_eq!(sanitize_for_db("exec xp_cmdshell"), "exec cmdshell");
    assert_eq!(sanitize_for_db(""), "");
    assert_eq!(sanitize_for_db(" \t\n"), "");
}

#[test]
fn sanitize_for_db_applies_its_steps_in_order() {
    // The semicolon goes first, which joins the two halves of "--".
    assert_eq!(sanitize_for_db("-;-"), "");
    // "--" goes before "/*", and "/*" before "*/".
    assert_eq!(sanitize_for_db("/--*x"), "x");
    assert_eq!(sanitize_for_db("*/*/"), "");
    assert_eq!(sanitize_for_db("*/-/"), "-/");
    assert_eq!(sanitize_for_db("x--p_"), "");
    assert_eq!(sanitize_for_db("--- ; x"), "-  x");
}
