use resume_builder::generation::{
    cloud_endpoint, cloud_request_body, generation_result, ollama_endpoint, ollama_request_body,
    Exchange, Provider,
};

fn answered(success: bool, status: &str, body: &str) -> Exchange {
    Exchange::Answered {
        success,
        status: status.to_string(),
        body: body.to_string(),
    }
}

fn parse_error(body: &str) -> String {
    serde_json::from_str::<serde_json::Value>(body).unwrap_err().to_string()
}

#[test]
fn cloud_endpoint_names_model_and_key() {
    assert_eq!(
        cloud_endpoint("gemini-2.5-flash", "SECRET-REDACTED"),
        "https://generativelanguage.googleapis.com/v1beta/models/gemini-2.5-flash:generateContent?key=SECRET-REDACTED"
    );
}

#[test]
fn cloud_body_quotes_the_prompt() {
    let body = cloud_request_body("Say \"hi\"\nnow");
    assert_eq!(
        body,
        "{\"contents\":[{\"parts\":[{\"text\":\"Say \\\"hi\\\"\\nnow\"}]}],\"generationConfig\":{\"maxOutputTokens\":8192,\"temperature\":0.7}}"
    );
    let v: serde_json::Value = serde_json::from_str(&body).unwrap();
    assert_eq!(v["contents"][0]["parts"][0]["text"], "Say \"hi\"\nnow");
    assert_eq!(v["generationConfig"]["maxOutputTokens"], 8192);
}

#[test]
fn ollama_endpoint_drops_trailing_slashes() {
    assert_eq!(ollama_endpoint("http://localhost:11434"), "http://localhost:11434/api/generate");
    assert_eq!(ollama_endpoint("http://localhost:11434/"), "http://localhost:11434/api/generate");
    assert_eq!(ollama_endpoint("http://localhost:11434///"), "http://localhost:11434/api/generate");
    assert_eq!(ollama_endpoint(""), "/api/generate");
}

#[test]
fn ollama_body_holds_model_options_and_prompt() {
    let body = ollama_request_body("Grade it", "qwen3.5:9b", "0.0", 8);
    assert_eq!(
        body,
        "{\"model\":\"qwen3.5:9b\",\"options\":{\"num_predict\":8,\"temperature\":0.0},\"prompt\":\"Grade it\",\"stream\":false,\"think\":false}"
    );
    let v: serde_json::Value = serde_json::from_str(&body).unwrap();
    assert_eq!(v["think"], false);
    let neg = ollama_request_body("p", "m", "0.7", -1);
    assert!(neg.contains("\"num_predict\":-1,"));
    let big = ollama_request_body("p", "m", "0.7", i32::MIN);
    assert!(big.contains("\"num_predict\":-2147483648,"));
}

#[test]
fn cloud_body_escapes_control_characters() {
    let body = cloud_request_body("a\u{1}\u{8}\u{c}\r\t\\b\u{7f}é");
    assert!(body.contains("\"text\":\"a\\u0001\\b\\f\\r\\t\\\\b\u{7f}é\""));
}

#[test]
fn gemini_success_returns_text_unchanged() {
    let r = generation_result(
        Provider::Gemini,
        "u",
        answered(
            true,
            "200 OK",
            "{\"candidates\":[{\"content\":{\"parts\":[{\"text\":\"  Dear team  \"}]}}]}",
        ),
    );
    assert_eq!(r, Ok("  Dear team  ".to_string()));
}

#[test]
fn ollama_success_returns_trimmed_text() {
    let r = generation_result(
        Provider::Ollama,
        "u",
        answered(true, "200 OK", "{\"response\":\"\\n 2 \\n\",\"done\":true}"),
    );
    assert_eq!(r, Ok("2".to_string()));
}

#[test]
fn reply_text_must_be_at_the_provider_place() {
    assert_eq!(
        generation_result(Provider::Gemini, "u", answered(true, "200 OK", "{\"response\":\"x\"}")),
        Err("Unexpected API response structure: {\"response\":\"x\"}".to_string())
    );
    assert_eq!(
        generation_result(Provider::Ollama, "u", answered(true, "200 OK", "{\"response\":3}")),
        Err("Unexpected Ollama response structure: {\"response\":3}".to_string())
    );
}

#[test]
fn gemini_error_messages() {
    let url = "https://example/x";
    assert_eq!(
        generation_result(Provider::Gemini, url, Exchange::SendFailed("timed out".to_string())),
        Err("HTTP request failed: timed out".to_string())
    );
    assert_eq!(
        generation_result(Provider::Gemini, url, Exchange::ReadFailed("eof".to_string())),
        Err("Failed to read response: eof".to_string())
    );
    assert_eq!(
        generation_result(Provider::Gemini, url, answered(false, "403 Forbidden", "denied")),
        Err("API error (403 Forbidden): denied".to_string())
    );
    assert_eq!(
        generation_result(Provider::Gemini, url, answered(true, "200 OK", "nope")),
        Err(format!("Failed to parse JSON: {}", parse_error("nope")))
    );
    assert_eq!(
        generation_result(Provider::Gemini, url, answered(true, "200 OK", "{\"a\":1}")),
        Err("Unexpected API response structure: {\"a\":1}".to_string())
    );
}

#[test]
fn ollama_error_messages() {
    let url = "http://localhost:11434/api/generate";
    assert_eq!(
        generation_result(Provider::Ollama, url, Exchange::SendFailed("refused".to_string())),
        Err("Could not reach Ollama at http://localhost:11434/api/generate. Is the Ollama server running? (refused)".to_string())
    );
    assert_eq!(
        generation_result(Provider::Ollama, url, Exchange::ReadFailed("eof".to_string())),
        Err("Failed to read Ollama response: eof".to_string())
    );
    assert_eq!(
        generation_result(Provider::Ollama, url, answered(false, "404 Not Found", "model missing")),
        Err("Ollama API error (404 Not Found): model missing".to_string())
    );
    assert_eq!(
        generation_result(Provider::Ollama, url, answered(true, "200 OK", "<html>")),
        Err(format!("Failed to parse Ollama JSON: {}", parse_error("<html>")))
    );
    assert_eq!(
        generation_result(Provider::Ollama, url, answered(true, "200 OK", "{}")),
        Err("Unexpected Ollama response structure: {}".to_string())
    );
}
