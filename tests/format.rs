use pacman_blame::output::CompiledFormat;
use pacman_blame::package::{PackageReason, PackageRecord};

fn record(name: &str, version: &str, desc: Option<&str>, reason: PackageReason) -> PackageRecord {
    PackageRecord {
        name: name.to_string(),
        version: version.to_string(),
        desc: desc.map(|d| d.to_string()),
        reason,
        required_by: Vec::new(),
    }
}

#[test]
fn name_dash_version_renders() {
    let f = CompiledFormat::compile("%n-%v").expect("valid template");
    let rec = record("foo", "1.0", None, PackageReason::Explicit);
    assert_eq!(f.display(&rec), "foo-1.0");
}

#[test]
fn double_percent_renders_one_percent() {
    let f = CompiledFormat::compile("%%").expect("valid template");
    let rec = record("foo", "1.0", None, PackageReason::Explicit);
    assert_eq!(f.display(&rec), "%");
}

#[test]
fn braced_directives_render_every_field() {
    let f = CompiledFormat::compile("%{n} %{v} %{r} [%{s}]").expect("valid template");
    let rec = record("bash", "5.2", Some("The shell"), PackageReason::Depend);
    assert_eq!(f.display(&rec), "bash 5.2 Depend [The shell]");
}

#[test]
fn shorthand_reason_and_missing_summary() {
    let f = CompiledFormat::compile("%r:%s:%n").expect("valid template");
    let rec = record("vim", "9", None, PackageReason::Explicit);
    assert_eq!(f.display(&rec), "Explicit::vim");
}

#[test]
fn empty_template_renders_nothing() {
    let f = CompiledFormat::compile("").expect("valid template");
    let rec = record("vim", "9", None, PackageReason::Explicit);
    assert_eq!(f.display(&rec), "");
}

#[test]
fn default_format_is_name_only() {
    let f = CompiledFormat::default();
    let rec = record("vim", "9", Some("editor"), PackageReason::Explicit);
    assert_eq!(f.display(&rec), "vim");
}

#[test]
fn literal_text_is_kept() {
    let f = CompiledFormat::compile("pkg: %n!").expect("valid template");
    let rec = record("zsh", "5", None, PackageReason::Explicit);
    assert_eq!(f.display(&rec), "pkg: zsh!");
}

#[test]
fn invalid_templates_do_not_compile() {
    assert!(CompiledFormat::compile("%").is_none());
    assert!(CompiledFormat::compile("abc%").is_none());
    assert!(CompiledFormat::compile("%x").is_none());
    assert!(CompiledFormat::compile("%{").is_none());
    assert!(CompiledFormat::compile("%{n").is_none());
    assert!(CompiledFormat::compile("%{x}").is_none());
    assert!(CompiledFormat::compile("%{}").is_none());
    assert!(CompiledFormat::compile("%{nn}").is_none());
    assert!(CompiledFormat::compile("%n %{v").is_none());
}

#[test]
fn valid_templates_compile() {
    assert!(CompiledFormat::compile("%%n").is_some());
    assert!(CompiledFormat::compile("%n%s%r%v").is_some());
    assert!(CompiledFormat::compile("{n}").is_some());
    assert!(CompiledFormat::compile("100%% %{v}").is_some());
}
