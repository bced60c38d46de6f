//! The hand-written log grammars agree with the regular expressions that
//! describe them, on every character class and on generated log text.
use iyam_dsh::process::{parse_broken_plugins, parse_missing_packages, parse_web_url, port_of_url, real_start_error};
use iyam_dsh::text::{is_decimal_digit, is_whitespace, trim_str};
use regex::Regex;

fn all_chars() -> impl Iterator<Item = char> {
    (0u32..=0x10FFFF).filter_map(char::from_u32)
}

#[test]
fn white_space_class_matches_regex() {
    let re = Regex::new(r"^\s$").unwrap();
    for c in all_chars() {
        let mut b = [0u8; 4];
        assert_eq!(is_whitespace(c), re.is_match(c.encode_utf8(&mut b)), "U+{:04X}", c as u32);
        assert_eq!(is_whitespace(c), c.is_whitespace(), "U+{:04X}", c as u32);
    }
}

#[test]
fn decimal_digit_class_matches_regex() {
    let re = Regex::new(r"^\d$").unwrap();
    for c in all_chars() {
        let mut b = [0u8; 4];
        assert_eq!(is_decimal_digit(c), re.is_match(c.encode_utf8(&mut b)), "U+{:04X}", c as u32);
    }
}

#[test]
fn trimming_matches_str_trim() {
    for t in ["", "  a b \n", "\u{3000}x\u{85}", "\t\r\n", "x"] {
        assert_eq!(trim_str(t), t.trim());
    }
}

/// A small deterministic generator of log-like text.
struct Gen(u64);

impl Gen {
    fn next(&mut self) -> u64 {
        self.0 = self.0.wrapping_mul(6364136223846793005).wrapping_add(1442695040888963407);
        self.0 >> 33
    }

    fn text(&mut self, pieces: &[&str], n: usize) -> String {
        let mut out = String::new();
        let k = (self.next() as usize) % n;
        for _ in 0..k {
            let i = (self.next() as usize) % pieces.len();
            out.push_str(pieces[i]);
        }
        out
    }
}

const PIECES: &[&str] = &[
    "dsh", " ", "  ", "\t", "\u{a0}", "\u{2003}", "\n", "web:", "web", ":", "http://127.0.0.1:",
    "http://127.0.0.2:", "5", "0", "7", "65536", "\u{663}", "\u{ff11}", "/", "?token=", "x", ".",
    ")", "(", "'", "Cannot find package '", "failed to import loader entry ", "node_modules/", ".pnpm/",
    "@", "@iyam/", "@deepseek-ai/", "node:", "dshmarket", "a-b", "-", "_", "é", "\u{1F600}",
];

fn reference_web_url(re: &Regex, line: &str) -> Option<String> {
    re.captures(line).map(|c| c[1].to_string())
}

fn reference_port(re: &Regex, url: &str) -> Option<u16> {
    re.captures(url)?.get(1)?.as_str().parse::<u16>().ok()
}

fn reference_missing(re: &Regex, text: &str) -> Vec<String> {
    let mut out: Vec<String> = Vec::new();
    for cap in re.captures_iter(text) {
        let pkg = cap[1].to_string();
        if !out.contains(&pkg) {
            out.push(pkg);
        }
    }
    out
}

fn blamable(pkg: &str) -> bool {
    !(pkg.starts_with("node:") || pkg.starts_with("@iyam/") || pkg.starts_with("@deepseek-ai/"))
}

fn reference_broken(entry: &Regex, path: &Regex, text: &str) -> Vec<String> {
    let mut out: Vec<String> = Vec::new();
    for re in [entry, path] {
        for cap in re.captures_iter(text) {
            let pkg = cap[1].to_string();
            if blamable(&pkg) && !out.contains(&pkg) {
                out.push(pkg);
            }
        }
    }
    out
}

#[test]
fn generated_logs_parse_as_the_regexes_say() {
    let web = Regex::new(r"dsh\s+web:\s+(http://127\.0\.0\.1:\d+\S*)").unwrap();
    let port = Regex::new(r"http://127\.0\.0\.1:(\d+)").unwrap();
    let missing = Regex::new(r"Cannot find package '([^']+)'").unwrap();
    let entry = Regex::new(r"failed to import loader entry \S+ \(([^)]+)\)").unwrap();
    let path = Regex::new(r"node_modules/(?:\.pnpm/[^/\s:)]+/node_modules/)?((?:@[^/:\s)]+/)?[^/:\s)]+)").unwrap();
    let mut g = Gen(0x5eed);
    for _ in 0..3000 {
        let t = g.text(PIECES, 24);
        assert_eq!(parse_web_url(&t), reference_web_url(&web, &t), "{:?}", t);
        assert_eq!(port_of_url(&t), reference_port(&port, &t), "{:?}", t);
        assert_eq!(parse_missing_packages(&t), reference_missing(&missing, &t), "{:?}", t);
        assert_eq!(parse_broken_plugins(&t), reference_broken(&entry, &path, &t), "{:?}", t);
    }
}

#[test]
fn start_error_uses_the_first_missing_package() {
    let missing = Regex::new(r"Cannot find package '([^']+)'").unwrap();
    let mut g = Gen(42);
    for _ in 0..1000 {
        let t = g.text(PIECES, 16);
        let msg = real_start_error(&t, &vec![]);
        match missing.captures(&t) {
            Some(c) => assert_eq!(
                msg,
                format!("DSH 启动失败：插件 {} 未能加载（ERR_MODULE_NOT_FOUND），请检查插件市场安装后重试，或查看日志", &c[1])
            ),
            None => assert_eq!(msg, "DSH 启动超时（30s），请查看日志"),
        }
    }
}
