use hammer2::errno::Errno;
use hammer2::inode::Inode;
use hammer2::option::{CidAllocMode, Opt};
use hammer2::subs::DEBUFSIZE;
use hammer2::util::{bin_to_string, get_current_time, split_path, Utf8Error};

#[test]
fn test_bin_to_string() {
    assert_eq!(bin_to_string(&[104, 97, 109, 109, 101, 114, 50]), Ok("hammer2".to_string()));
    assert_eq!(bin_to_string(&[104, 97, 109, 109, 101, 114, 50, 0]), Ok("hammer2".to_string()));
    assert_eq!(
        bin_to_string(&[104, 97, 109, 109, 101, 114, 50, 0, 0]),
        Ok("hammer2".to_string())
    );

    assert_eq!(bin_to_string(&[]), Ok(String::new()));
    assert_eq!(bin_to_string(&[0]), Ok(String::new()));
    assert_eq!(bin_to_string(&[0, 0]), Ok(String::new()));
    assert_eq!(bin_to_string(&[0, 0, 104, 97, 109, 109, 101, 114, 50]), Ok(String::new()));
}

#[test]
fn test_bin_to_string_invalid() {
    assert_eq!(bin_to_string(&[0xc3, 0x28, 0]), Err(Utf8Error));
    assert_eq!(bin_to_string(&[0xc3, 0xa9, 0]), Ok("\u{e9}".to_string()));
}

#[test]
fn test_get_current_time() {
    let t1 = match get_current_time() {
        Ok(v) => v,
        Err(e) => panic!("{e:?}"),
    };
    let t2 = match get_current_time() {
        Ok(v) => v,
        Err(e) => panic!("{e:?}"),
    };
    assert_ne!(t1, 0);
    assert_ne!(t2, 0);
    assert!(t2 >= t1);
}

#[test]
fn test_split_path() {
    assert!(split_path("").is_empty());

    assert!(split_path("/").is_empty());
    assert!(split_path("/.").is_empty());

    assert!(split_path("//").is_empty());
    assert!(split_path("//.").is_empty());

    assert!(split_path(".").is_empty());
    assert!(split_path("./.").is_empty());

    assert_eq!(split_path(" "), [" "]);
    assert_eq!(split_path(".."), [".."]);
    assert_eq!(split_path("cnp"), ["cnp"]);

    assert_eq!(split_path("/cnp"), ["cnp"]);
    assert_eq!(split_path("//cnp"), ["cnp"]);
    assert_eq!(split_path("./cnp"), ["cnp"]);

    assert_eq!(split_path("cnp/"), ["cnp"]);
    assert_eq!(split_path("cnp//"), ["cnp"]);
    assert_eq!(split_path("cnp/."), ["cnp"]);

    assert_eq!(split_path("/cnp/"), ["cnp"]);
    assert_eq!(split_path("//cnp//"), ["cnp"]);
    assert_eq!(split_path("./cnp/."), ["cnp"]);

    assert_eq!(split_path("/path/to/cnp"), ["path", "to", "cnp"]);
    assert_eq!(split_path("///path///to///cnp///"), ["path", "to", "cnp"]);
    assert_eq!(split_path("./path/./to/./cnp/."), ["path", "to", "cnp"]);
}

#[test]
fn test_opt_nodatacache() {
    match Opt::new(&["--nodatacache"]) {
        Ok(v) => assert!(v.nodatacache),
        Err(e) => panic!("{e:?}"),
    }
    match Opt::new(&[]) {
        Ok(v) => assert!(!v.nodatacache),
        Err(e) => panic!("{e:?}"),
    }
}

#[test]
fn test_opt_cidalloc() {
    match Opt::new(&["--cidalloc", "linear"]) {
        Ok(v) => match v.cidalloc {
            CidAllocMode::Linear => (),
            v @ CidAllocMode::Bitmap => panic!("{v:?}"),
        },
        Err(e) => panic!("{e:?}"),
    }
    match Opt::new(&["--cidalloc", "bitmap"]) {
        Ok(v) => match v.cidalloc {
            CidAllocMode::Bitmap => (),
            v @ CidAllocMode::Linear => panic!("{v:?}"),
        },
        Err(e) => panic!("{e:?}"),
    }
    match Opt::new(&["--cidalloc", "xxx"]) {
        Ok(v) => panic!("{v:?}"),
        Err(Errno::EINVAL) => (),
        Err(e) => panic!("{e:?}"),
    }
}

#[test]
fn test_opt_help() {
    match Opt::new(&["-h"]) {
        Ok(v) => panic!("{v:?}"),
        Err(Errno::UnknownErrno) => (),
        Err(e) => panic!("{e:?}"),
    }
    match Opt::new(&["--h"]) {
        Ok(v) => panic!("{v:?}"),
        Err(Errno::UnknownErrno) => (),
        Err(e) => panic!("{e:?}"),
    }
}

#[test]
fn test_opt_debug() {
    match Opt::new(&["--debug"]) {
        Ok(v) => assert!(v.debug),
        Err(e) => panic!("{e:?}"),
    }
    match Opt::new(&[]) {
        Ok(v) => assert!(!v.debug),
        Err(e) => panic!("{e:?}"),
    }
}

#[test]
fn test_opt_unknown_argument() {
    assert_eq!(Opt::new(&["--nosuchoption"]), Err(Errno::EINVAL));
    assert_eq!(
        Opt::from_parsed(false, true, Some("bitmap"), false),
        Ok(Opt { nodatacache: true, cidalloc: CidAllocMode::Bitmap, debug: false })
    );
    assert_eq!(Opt::from_parsed(true, false, None, false), Err(Errno::UnknownErrno));
    assert!(Opt::usage().contains("--nodatacache"));
}

#[test]
fn test_inode_get_put() {
    let mut ip = Inode::new_empty();
    assert_eq!(ip.refs, 0);
    assert!(ip.get().is_ok());
    assert_eq!(ip.refs, 1);
    assert!(ip.get().is_ok());
    assert_eq!(ip.refs, 2);
    assert!(ip.put().is_ok());
    assert_eq!(ip.refs, 1);
    assert!(ip.put().is_ok());
    assert_eq!(ip.refs, 0);
    assert!(ip.put().is_err());
    assert_eq!(ip.refs, 0);
    assert!(ip.put().is_err());
}

const INPUT: [&[u8]; 4] = [b"x", b"HAMMER2", b"hammer2", &[0x41; DEBUFSIZE]];

#[test]
fn lz4_test_compress_decompress() {
    for &b in &INPUT {
        let c = match hammer2::lz4::compress(b) {
            Ok(v) => v,
            Err(e) => panic!("{e:?}:{b:?}"),
        };
        let d = match hammer2::lz4::decompress(&c, DEBUFSIZE) {
            Ok(v) => v,
            Err(e) => panic!("{e:?}:{b:?}"),
        };
        assert_eq!(d, b, "{b:?}");
    }
}

#[test]
fn lz4_frame_layout() {
    let f = hammer2::lz4::lz4_frame(&[9, 8, 7]);
    assert_eq!(f, [3, 0, 0, 0, 9, 8, 7]);
    assert_eq!(hammer2::lz4::lz4_unframe(&f), Some(&[9u8, 8, 7][..]));
    assert_eq!(hammer2::lz4::lz4_unframe(&[5, 0, 0, 0, 1]), None);
    let c = hammer2::lz4::compress(b"hammer2hammer2hammer2").unwrap();
    assert_ne!(c, b"hammer2hammer2hammer2");
    assert_eq!(hammer2::lz4::decompress(&[2, 0, 0, 0, 0xff, 0xff], DEBUFSIZE), Err(Errno::EINVAL));
}

#[test]
fn zlib_test_compress_decompress() {
    for &b in &INPUT {
        for level in 0..=9 {
            let c = match hammer2::zlib::compress(b, level) {
                Ok(v) => v,
                Err(e) => panic!("{e:?}:{b:?}:{level}"),
            };
            let d = match hammer2::zlib::decompress(&c, DEBUFSIZE) {
                Ok(v) => v,
                Err(e) => panic!("{e:?}:{b:?}:{level}"),
            };
            assert_eq!(d, b, "{b:?}:{level}");
        }
    }
}

#[test]
fn zlib_decompress_garbage() {
    assert!(hammer2::zlib::decompress(&[0xff, 0xff, 0xff, 0xff], DEBUFSIZE).is_err());
    let c = hammer2::zlib::compress(&[0x41; 100], 6).unwrap();
    assert_ne!(c, vec![0x41; 100]);
}

#[test]
fn zlib_decompress_over_limit() {
    let c = hammer2::zlib::compress(&[0x41; 1000], 6).unwrap();
    assert_eq!(
        hammer2::zlib::decompress(&c, 10),
        Err(hammer2::zlib::InflateStatus::HasMoreOutput)
    );
    assert_eq!(hammer2::zlib::decompress(&c, 1000).unwrap(), vec![0x41; 1000]);
}
