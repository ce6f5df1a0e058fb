//! Error descriptions and the error an included file's error is wrapped in.

use opencrg::Error;

#[test]
fn messages_name_the_problem() {
    let syntax = Error::Syntax {
        line: 4,
        reason: "expected `key = value`",
    };
    assert_eq!(syntax.message(), "line 4: expected `key = value`");
    assert_eq!(
        Error::Truncated {
            expected: 1200,
            actual: 0
        }
        .message(),
        "data section has 0 bytes, header declares 1200"
    );
    assert_eq!(Error::NoData.message(), "no $$$$ data section");
    assert_eq!(
        Error::IncludeTooDeep.message(),
        "includes are nested more than 8 levels deep"
    );
    assert_eq!(
        Error::IncludeCycle("a.crg".to_string()).message(),
        "a.crg includes itself"
    );
    let nested = Error::Include {
        path: "outer.crg".to_string(),
        error: Box::new(Error::Include {
            path: "inner.crg".to_string(),
            error: Box::new(Error::Missing("#: data format")),
        }),
    };
    assert_eq!(
        nested.message(),
        "in outer.crg: in inner.crg: missing #: data format"
    );
    assert_eq!(
        nested.source_error().map(Error::message),
        Some("in inner.crg: missing #: data format".to_string())
    );
    assert_eq!(Error::NoData.source_error(), None);
}

#[test]
fn io_errors_keep_the_path_kind_and_text() {
    let e = std::io::Error::new(std::io::ErrorKind::NotFound, "gone");
    match Error::io("x.crg".to_string(), e.kind(), e.to_string()) {
        Error::Io {
            path,
            kind,
            message,
        } => {
            assert_eq!(path, "x.crg");
            assert_eq!(kind, std::io::ErrorKind::NotFound);
            assert_eq!(message, "gone");
        }
        other => panic!("{other:?}"),
    }
    assert_eq!(
        Error::io("x.crg".to_string(), e.kind(), e.to_string()).message(),
        "x.crg: gone"
    );
}
