use std::path::Path;

use codex_toolkit::paths;

fn samples() -> Vec<String> {
    let mut all = vec![String::new()];
    let mut last = all.clone();
    for _ in 0..5 {
        let mut next = Vec::new();
        for s in &last {
            for c in ['a', '/', '.', 'B'] {
                next.push(format!("{s}{c}"));
            }
        }
        all.extend(next.iter().cloned());
        last = next;
    }
    all
}

#[test]
fn paths_are_read_as_std_reads_them() {
    for s in samples() {
        let p = Path::new(&s);
        assert_eq!(paths::is_absolute(&s), p.is_absolute(), "{s:?}");
        assert_eq!(
            paths::file_name(&s),
            p.file_name().map(|n| n.to_string_lossy().into_owned()),
            "{s:?}"
        );
        assert_eq!(
            paths::extension(&s),
            p.extension().map(|n| n.to_string_lossy().into_owned()),
            "{s:?}"
        );
        let up = paths::parent(&s);
        assert_eq!(up.as_deref().map(Path::new), p.parent(), "{s:?}");
    }
}

#[test]
fn paths_are_compared_as_std_compares_them() {
    let all: Vec<String> = samples().into_iter().filter(|s| s.len() < 5).collect();
    for a in &all {
        for b in &all {
            let (p, q) = (Path::new(a), Path::new(b));
            assert_eq!(paths::same_path(a, b), p == q, "{a:?} {b:?}");
            assert_eq!(paths::starts_with(a, b), p.starts_with(q), "{a:?} {b:?}");
            assert_eq!(paths::path_before(a, b), p < q, "{a:?} {b:?}");
            let rest = paths::strip_prefix(a, b);
            assert_eq!(
                rest.as_deref().map(Path::new),
                p.strip_prefix(q).ok(),
                "{a:?} {b:?}"
            );
            assert_eq!(
                Path::new(&paths::join(a, b)),
                p.join(q).as_path(),
                "{a:?} {b:?}"
            );
        }
    }
}
