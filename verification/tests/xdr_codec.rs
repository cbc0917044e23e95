use nfsserve::nfs::{
    diropargs3, fattr3, ftype3, nfs_fh3, nfsstat3, nfsstring, nfstime3, post_op_attr,
    post_op_fh3, pre_op_attr, sattr3, set_atime, set_gid3, set_mode3, set_mtime, set_size3,
    set_uid3, specdata3, symlinkdata3, wcc_attr, wcc_data, get_root_mount_handle,
};
use nfsserve::mount::mountstat3;
use nfsserve::nfs_handlers::{createmode3, sattrguard3, stable_how};
use nfsserve::rpc::{
    accept_body, auth_flavor, auth_stat, auth_unix, call_body, garbage_args_reply_message,
    make_success_reply, mismatch_info, opaque_auth, proc_unavail_reply_message,
    prog_mismatch_reply_message, prog_unavail_reply_message, rejected_reply, reply_body,
    rpc_body, rpc_msg, rpc_vers_mismatch, accepted_reply,
};
use nfsserve::write_counter::WriteCounter;
use nfsserve::xdr::{ByteReader, XdrError, XDR};

fn bytes_of<T: XDR>(value: &T) -> Vec<u8> {
    let mut out = Vec::new();
    value.serialize(&mut out);
    out
}

fn decode<T: XDR>(bytes: &[u8], mut value: T) -> Result<(T, usize), XdrError> {
    let mut reader = ByteReader::new(bytes.to_vec());
    value.deserialize(&mut reader)?;
    Ok((value, reader.pos))
}

/// Encodes, checks the length, decodes with bytes behind, and compares.
fn roundtrip<T: XDR + PartialEq + std::fmt::Debug + Clone>(value: T, blank: T) {
    let mut bytes = bytes_of(&value);
    assert_eq!(bytes.len() % 4, 0);
    let len = bytes.len();
    bytes.extend_from_slice(&[0xde, 0xad]);
    assert_eq!(decode(&bytes, blank.clone()), Ok((value.clone(), len)));
    // one byte less than the encoding does not decode
    if len > 0 {
        assert!(decode(&bytes[..len - 1], blank).is_err());
    }
}

#[test]
fn integers_are_big_endian() {
    assert_eq!(bytes_of(&0x01020304u32), vec![1, 2, 3, 4]);
    assert_eq!(bytes_of(&0x0102030405060708u64), vec![1, 2, 3, 4, 5, 6, 7, 8]);
    assert_eq!(bytes_of(&-2i32), vec![0xff, 0xff, 0xff, 0xfe]);
    assert_eq!(bytes_of(&-2i64), vec![0xff, 0xff, 0xff, 0xff, 0xff, 0xff, 0xff, 0xfe]);
    assert_eq!(bytes_of(&i32::MIN), vec![0x80, 0, 0, 0]);
    assert_eq!(bytes_of(&i64::MIN), vec![0x80, 0, 0, 0, 0, 0, 0, 0]);
    assert_eq!(bytes_of(&true), vec![0, 0, 0, 1]);
    assert_eq!(bytes_of(&false), vec![0, 0, 0, 0]);
}

#[test]
fn integers_roundtrip() {
    for v in [0u32, 1, 255, 256, 0x7fff_ffff, 0x8000_0000, u32::MAX] {
        roundtrip(v, 0);
    }
    for v in [0u64, 1, 0xffff_ffff, 0x1_0000_0000, u64::MAX, 0x8000_0000_0000_0000] {
        roundtrip(v, 0);
    }
    for v in [0i32, 1, -1, i32::MAX, i32::MIN, -123456] {
        roundtrip(v, 0);
    }
    for v in [0i64, 1, -1, i64::MAX, i64::MIN, -1234567890123] {
        roundtrip(v, 0);
    }
    roundtrip(true, false);
    roundtrip(false, true);
}

#[test]
fn any_nonzero_word_is_true() {
    assert_eq!(decode(&[0, 0, 0, 2], false), Ok((true, 4)));
    assert_eq!(decode(&[1, 0, 0, 0], false), Ok((true, 4)));
    assert_eq!(decode(&[0, 0, 0, 0], true), Ok((false, 4)));
}

#[test]
fn short_input_is_unexpected_eof() {
    assert_eq!(decode(&[0, 0, 0], 0u32), Err(XdrError::UnexpectedEof));
    assert_eq!(decode(&[], 0u32), Err(XdrError::UnexpectedEof));
    assert_eq!(decode(&[0; 7], 0u64), Err(XdrError::UnexpectedEof));
    assert_eq!(decode(&[0; 3], 0i32), Err(XdrError::UnexpectedEof));
    assert_eq!(decode(&[0; 7], 0i64), Err(XdrError::UnexpectedEof));
    assert_eq!(decode(&[0; 2], false), Err(XdrError::UnexpectedEof));
    assert_eq!(decode(&[0; 7], [0u8; 8]), Err(XdrError::UnexpectedEof));
    // the length says five bytes, and three bytes of padding are missing
    assert_eq!(decode(&[0, 0, 0, 5, 1, 2, 3, 4, 5], Vec::<u8>::new()), Err(XdrError::UnexpectedEof));
    assert_eq!(decode(&[0, 0, 0, 5, 1, 2, 3, 4], Vec::<u8>::new()), Err(XdrError::UnexpectedEof));
    assert_eq!(decode(&[0xff, 0xff, 0xff, 0xff, 1], Vec::<u8>::new()), Err(XdrError::UnexpectedEof));
    assert_eq!(decode(&[0, 0, 0, 2, 0, 0, 0, 1], Vec::<u32>::new()), Err(XdrError::UnexpectedEof));
    assert_eq!(decode(&[0xff, 0xff, 0xff, 0xff], Vec::<u32>::new()), Err(XdrError::UnexpectedEof));
}

#[test]
fn reading_past_the_end_of_a_reader_fails() {
    let mut reader = ByteReader::new(vec![0, 0, 0, 1]);
    assert_eq!(reader.remaining(), 4);
    let mut v = 0u32;
    assert_eq!(v.deserialize(&mut reader), Ok(()));
    assert_eq!(reader.remaining(), 0);
    assert_eq!(v.deserialize(&mut reader), Err(XdrError::UnexpectedEof));
    reader.pos = 9;
    assert_eq!(reader.remaining(), 0);
    assert_eq!(v.deserialize(&mut reader), Err(XdrError::UnexpectedEof));
    let mut a = [0u8; 0];
    assert_eq!(a.deserialize(&mut reader), Err(XdrError::UnexpectedEof));
}

#[test]
fn opaque_is_padded_to_four() {
    for n in 0..=9usize {
        let data: Vec<u8> = (1..=n as u8).collect();
        let bytes = bytes_of(&data);
        assert_eq!(bytes.len(), 4 + n + ((4 - n % 4) % 4));
        assert_eq!(&bytes[..4], &(n as u32).to_be_bytes());
        assert_eq!(&bytes[4..4 + n], &data[..]);
        assert!(bytes[4 + n..].iter().all(|b| *b == 0));
        roundtrip(data.clone(), vec![7, 7]);
        roundtrip(nfsstring(data.clone()), nfsstring(vec![1]));
        roundtrip(nfs_fh3 { data }, nfs_fh3::default());
    }
    assert_eq!(bytes_of(&b"hello".to_vec()), vec![0, 0, 0, 5, b'h', b'e', b'l', b'l', b'o', 0, 0, 0]);
}

#[test]
fn padding_need_not_be_zero_on_input() {
    assert_eq!(decode(&[0, 0, 0, 1, 9, 8, 7, 6], Vec::<u8>::new()), Ok((vec![9], 8)));
}

#[test]
fn fixed_opaque_is_verbatim() {
    let v = [1u8, 2, 3, 4, 5, 6, 7, 8];
    assert_eq!(bytes_of(&v), v.to_vec());
    roundtrip(v, [0u8; 8]);
    let odd = [9u8, 8, 7];
    assert_eq!(bytes_of(&odd), vec![9, 8, 7]);
    assert_eq!(decode(&[9, 8, 7, 6], [0u8; 3]), Ok((odd, 3)));
}

#[test]
fn word_arrays_are_counted() {
    assert_eq!(bytes_of(&vec![1u32, 0x0a0b0c0d]), vec![0, 0, 0, 2, 0, 0, 0, 1, 0x0a, 0x0b, 0x0c, 0x0d]);
    roundtrip(Vec::<u32>::new(), vec![5]);
    roundtrip(vec![1u32, 2, 3, u32::MAX], vec![]);
}

#[test]
fn enumerations_roundtrip_and_reject_unknown_values() {
    let stats = [
        (nfsstat3::NFS3_OK, 0u32),
        (nfsstat3::NFS3ERR_PERM, 1),
        (nfsstat3::NFS3ERR_NOENT, 2),
        (nfsstat3::NFS3ERR_IO, 5),
        (nfsstat3::NFS3ERR_NXIO, 6),
        (nfsstat3::NFS3ERR_ACCES, 13),
        (nfsstat3::NFS3ERR_EXIST, 17),
        (nfsstat3::NFS3ERR_XDEV, 18),
        (nfsstat3::NFS3ERR_NODEV, 19),
        (nfsstat3::NFS3ERR_NOTDIR, 20),
        (nfsstat3::NFS3ERR_ISDIR, 21),
        (nfsstat3::NFS3ERR_INVAL, 22),
        (nfsstat3::NFS3ERR_FBIG, 27),
        (nfsstat3::NFS3ERR_NOSPC, 28),
        (nfsstat3::NFS3ERR_ROFS, 30),
        (nfsstat3::NFS3ERR_MLINK, 31),
        (nfsstat3::NFS3ERR_NAMETOOLONG, 63),
        (nfsstat3::NFS3ERR_NOTEMPTY, 66),
        (nfsstat3::NFS3ERR_DQUOT, 69),
        (nfsstat3::NFS3ERR_STALE, 70),
        (nfsstat3::NFS3ERR_REMOTE, 71),
        (nfsstat3::NFS3ERR_BADHANDLE, 10001),
        (nfsstat3::NFS3ERR_NOT_SYNC, 10002),
        (nfsstat3::NFS3ERR_BAD_COOKIE, 10003),
        (nfsstat3::NFS3ERR_NOTSUPP, 10004),
        (nfsstat3::NFS3ERR_TOOSMALL, 10005),
        (nfsstat3::NFS3ERR_SERVERFAULT, 10006),
        (nfsstat3::NFS3ERR_BADTYPE, 10007),
        (nfsstat3::NFS3ERR_JUKEBOX, 10008),
    ];
    for (stat, code) in stats {
        assert_eq!(stat.to_u32(), code);
        assert_eq!(nfsstat3::from_u32(code), Some(stat));
        assert_eq!(bytes_of(&stat), code.to_be_bytes().to_vec());
        roundtrip(stat, nfsstat3::NFS3ERR_JUKEBOX);
    }
    assert_eq!(nfsstat3::from_u32(3), None);
    assert_eq!(decode(&[0, 0, 0, 3], nfsstat3::NFS3_OK), Err(XdrError::InvalidData));
    assert_eq!(decode(&[0, 0, 0, 0], ftype3::NF3REG), Err(XdrError::InvalidData));
    assert_eq!(decode(&[0, 0, 0, 8], ftype3::NF3REG), Err(XdrError::InvalidData));
    assert_eq!(decode(&[0, 0, 0, 7], ftype3::NF3REG), Ok((ftype3::NF3FIFO, 4)));
    assert_eq!(decode(&[0, 0, 0, 3], stable_how::UNSTABLE), Err(XdrError::InvalidData));
    assert_eq!(decode(&[0, 0, 0, 3], createmode3::UNCHECKED), Err(XdrError::InvalidData));
    assert_eq!(decode(&[0, 0, 0, 4], auth_flavor::AUTH_NULL), Err(XdrError::InvalidData));
    assert_eq!(decode(&[0, 0, 0, 0], auth_stat::AUTH_BADCRED), Err(XdrError::InvalidData));
    assert_eq!(decode(&[0, 0, 0, 3], mountstat3::MNT3_OK), Err(XdrError::InvalidData));
    assert_eq!(decode(&[0, 0, 0x27, 0x16], mountstat3::MNT3_OK), Ok((mountstat3::MNT3ERR_SERVERFAULT, 4)));
    for t in [ftype3::NF3REG, ftype3::NF3DIR, ftype3::NF3BLK, ftype3::NF3CHR, ftype3::NF3LNK, ftype3::NF3SOCK, ftype3::NF3FIFO] {
        roundtrip(t, ftype3::NF3REG);
    }
    for t in [stable_how::UNSTABLE, stable_how::DATA_SYNC, stable_how::FILE_SYNC] {
        roundtrip(t, stable_how::UNSTABLE);
    }
    for t in [createmode3::UNCHECKED, createmode3::GUARDED, createmode3::EXCLUSIVE] {
        roundtrip(t, createmode3::UNCHECKED);
    }
    for t in [auth_stat::AUTH_BADCRED, auth_stat::AUTH_REJECTEDCRED, auth_stat::AUTH_BADVERF, auth_stat::AUTH_REJECTEDVERF, auth_stat::AUTH_TOOWEAK] {
        roundtrip(t, auth_stat::AUTH_BADCRED);
    }
    assert_eq!(ftype3::default(), ftype3::NF3REG);
    assert_eq!(auth_stat::default(), auth_stat::AUTH_BADCRED);
}

fn sample_attr() -> fattr3 {
    fattr3 {
        ftype: ftype3::NF3LNK,
        mode: 0o644,
        nlink: 2,
        uid: 1000,
        gid: 100,
        size: 0x1_0000_0001,
        used: 4096,
        rdev: specdata3 { specdata1: 8, specdata2: 1 },
        fsid: 77,
        fileid: 0xdead_beef_0000_0001,
        atime: nfstime3 { seconds: 1, nseconds: 2 },
        mtime: nfstime3 { seconds: 3, nseconds: 4 },
        ctime: nfstime3 { seconds: 5, nseconds: 6 },
    }
}

#[test]
fn attributes_take_84_bytes_in_declaration_order() {
    let bytes = bytes_of(&sample_attr());
    assert_eq!(bytes.len(), 84);
    assert_eq!(&bytes[..8], &[0, 0, 0, 5, 0, 0, 1, 0xa4]);
    assert_eq!(&bytes[20..28], &[0, 0, 0, 1, 0, 0, 0, 1]);
    assert_eq!(&bytes[52..60], &[0xde, 0xad, 0xbe, 0xef, 0, 0, 0, 1]);
    assert_eq!(&bytes[76..], &[0, 0, 0, 5, 0, 0, 0, 6]);
    roundtrip(sample_attr(), fattr3::default());
    // the type of the file is checked first
    let mut bad = bytes.clone();
    bad[3] = 9;
    assert_eq!(decode(&bad[..10], fattr3::default()), Err(XdrError::InvalidData));
    assert_eq!(decode(&bytes[..10], fattr3::default()), Err(XdrError::UnexpectedEof));
}

#[test]
fn unions_roundtrip() {
    let w = wcc_attr { size: 9, mtime: nfstime3 { seconds: 1, nseconds: 2 }, ctime: nfstime3 { seconds: 3, nseconds: 4 } };
    assert_eq!(bytes_of(&pre_op_attr::Void), vec![0, 0, 0, 0]);
    assert_eq!(bytes_of(&pre_op_attr::attributes(w)).len(), 28);
    roundtrip(pre_op_attr::Void, pre_op_attr::attributes(w));
    roundtrip(pre_op_attr::attributes(w), pre_op_attr::Void);
    roundtrip(post_op_attr::Void, post_op_attr::attributes(sample_attr()));
    roundtrip(post_op_attr::attributes(sample_attr()), post_op_attr::Void);
    assert_eq!(bytes_of(&post_op_attr::attributes(sample_attr())).len(), 88);
    roundtrip(wcc_data { before: pre_op_attr::attributes(w), after: post_op_attr::attributes(sample_attr()) }, wcc_data::default());
    roundtrip(wcc_data::default(), wcc_data { before: pre_op_attr::attributes(w), after: post_op_attr::Void });
    assert_eq!(bytes_of(&wcc_data::default()), vec![0; 8]);
    roundtrip(post_op_fh3::Void, post_op_fh3::handle(nfs_fh3::default()));
    roundtrip(post_op_fh3::handle(nfs_fh3 { data: vec![1, 2, 3] }), post_op_fh3::Void);
    roundtrip(set_mode3::mode(0o777), set_mode3::Void);
    roundtrip(set_mode3::Void, set_mode3::mode(1));
    roundtrip(set_uid3::uid(1), set_uid3::Void);
    roundtrip(set_gid3::gid(2), set_gid3::Void);
    roundtrip(set_size3::size(u64::MAX), set_size3::Void);
    roundtrip(sattrguard3::obj_ctime(nfstime3 { seconds: 1, nseconds: 2 }), sattrguard3::Void);
    roundtrip(sattrguard3::Void, sattrguard3::obj_ctime(nfstime3::default()));
    for t in [set_atime::DONT_CHANGE, set_atime::SET_TO_SERVER_TIME, set_atime::SET_TO_CLIENT_TIME(nfstime3 { seconds: 7, nseconds: 8 })] {
        roundtrip(t, set_atime::DONT_CHANGE);
    }
    for t in [set_mtime::DONT_CHANGE, set_mtime::SET_TO_SERVER_TIME, set_mtime::SET_TO_CLIENT_TIME(nfstime3 { seconds: 7, nseconds: 8 })] {
        roundtrip(t, set_mtime::DONT_CHANGE);
    }
    assert_eq!(bytes_of(&set_atime::SET_TO_CLIENT_TIME(nfstime3 { seconds: 7, nseconds: 8 })), vec![0, 0, 0, 2, 0, 0, 0, 7, 0, 0, 0, 8]);
    assert_eq!(decode(&[0, 0, 0, 3], set_atime::DONT_CHANGE), Err(XdrError::InvalidData));
    assert_eq!(decode(&[0, 0, 0, 3], set_mtime::DONT_CHANGE), Err(XdrError::InvalidData));
    assert_eq!(decode(&[0, 0, 0, 2, 0, 0], set_mtime::DONT_CHANGE), Err(XdrError::UnexpectedEof));
}

#[test]
fn records_roundtrip() {
    let attrs = sattr3 {
        mode: set_mode3::mode(0o600),
        uid: set_uid3::Void,
        gid: set_gid3::gid(5),
        size: set_size3::size(10),
        atime: set_atime::SET_TO_SERVER_TIME,
        mtime: set_mtime::SET_TO_CLIENT_TIME(nfstime3 { seconds: 1, nseconds: 2 }),
    };
    roundtrip(attrs, sattr3::default());
    roundtrip(sattr3::default(), attrs);
    assert_eq!(bytes_of(&sattr3::default()), vec![0; 24]);
    roundtrip(
        diropargs3 { dir: nfs_fh3 { data: vec![1; 16] }, name: nfsstring(b"name".to_vec()) },
        diropargs3::default(),
    );
    roundtrip(
        symlinkdata3 { symlink_attributes: attrs, symlink_data: nfsstring(b"/a/b".to_vec()) },
        symlinkdata3::default(),
    );
    roundtrip(
        auth_unix { stamp: 1, machinename: b"host".to_vec(), uid: 2, gid: 3, gids: vec![4, 5, 6] },
        auth_unix::default(),
    );
    roundtrip(opaque_auth { flavor: auth_flavor::AUTH_DES, body: vec![1, 2, 3, 4, 5] }, opaque_auth::default());
    roundtrip(mismatch_info { low: 2, high: 3 }, mismatch_info::default());
}

#[test]
fn messages_roundtrip() {
    let call = rpc_msg {
        xid: 0xfeed,
        body: rpc_body::CALL(call_body {
            rpcvers: 2,
            prog: 100003,
            vers: 3,
            proc: 6,
            cred: opaque_auth { flavor: auth_flavor::AUTH_UNIX, body: vec![0; 20] },
            verf: opaque_auth::default(),
        }),
    };
    assert_eq!(bytes_of(&call).len(), 4 + 4 + 16 + (4 + 4 + 20) + 8);
    roundtrip(call, rpc_msg::default());
    for body in [
        accept_body::SUCCESS,
        accept_body::PROG_UNAVAIL,
        accept_body::PROG_MISMATCH(mismatch_info { low: 1, high: 4 }),
        accept_body::PROC_UNAVAIL,
        accept_body::GARBAGE_ARGS,
    ] {
        roundtrip(body, accept_body::PROC_UNAVAIL);
        let reply = rpc_msg {
            xid: 1,
            body: rpc_body::REPLY(reply_body::MSG_ACCEPTED(accepted_reply { verf: opaque_auth::default(), reply_data: body })),
        };
        roundtrip(reply, rpc_msg::default());
    }
    for denied in [rejected_reply::RPC_MISMATCH(mismatch_info { low: 2, high: 2 }), rejected_reply::AUTH_ERROR(auth_stat::AUTH_TOOWEAK)] {
        roundtrip(denied, rejected_reply::default());
        let reply = rpc_msg { xid: 1, body: rpc_body::REPLY(reply_body::MSG_DENIED(denied)) };
        roundtrip(reply, rpc_msg::default());
    }
    // discriminants outside the closed sets
    assert_eq!(decode(&[0, 0, 0, 5], accept_body::SUCCESS), Err(XdrError::InvalidData));
    assert_eq!(decode(&[0, 0, 0, 2], rejected_reply::default()), Err(XdrError::InvalidData));
    assert_eq!(decode(&[0, 0, 0, 2], rpc_body::default()), Err(XdrError::InvalidData));
    assert_eq!(decode(&[0, 0, 0, 2], reply_body::default()), Err(XdrError::InvalidData));
}

#[test]
fn replies_made_by_the_server() {
    assert_eq!(
        bytes_of(&make_success_reply(0x01020304)),
        vec![1, 2, 3, 4, 0, 0, 0, 1, 0, 0, 0, 0, 0, 0, 0, 0, 0, 0, 0, 0, 0, 0, 0, 0]
    );
    assert_eq!(bytes_of(&prog_unavail_reply_message(1))[20..], [0, 0, 0, 1]);
    assert_eq!(bytes_of(&proc_unavail_reply_message(1))[20..], [0, 0, 0, 3]);
    assert_eq!(bytes_of(&garbage_args_reply_message(1))[20..], [0, 0, 0, 4]);
    assert_eq!(bytes_of(&prog_mismatch_reply_message(1, 3))[20..], [0, 0, 0, 2, 0, 0, 0, 3, 0, 0, 0, 3]);
    assert_eq!(
        bytes_of(&rpc_vers_mismatch(9)),
        vec![0, 0, 0, 9, 0, 0, 0, 1, 0, 0, 0, 1, 0, 0, 0, 0, 0, 0, 0, 0, 0, 0, 0, 0]
    );
    assert_eq!(
        proc_unavail_reply_message(4),
        rpc_msg {
            xid: 4,
            body: rpc_body::REPLY(reply_body::MSG_ACCEPTED(accepted_reply {
                verf: opaque_auth { flavor: auth_flavor::AUTH_NULL, body: vec![] },
                reply_data: accept_body::PROC_UNAVAIL,
            })),
        }
    );
}

#[test]
fn strings_and_root_handle() {
    let s = nfsstring(b"abc".to_vec());
    assert_eq!(s.len(), 3);
    assert!(!s.is_empty());
    assert!(nfsstring::default().is_empty());
    assert_eq!(nfsstring::from_slice(b"xy"), nfsstring(vec![b'x', b'y']));
    assert_eq!(s.as_bytes(), b"abc");
    assert_eq!(s.duplicate(), s);
    assert_eq!(get_root_mount_handle(), vec![0]);
}

#[test]
fn write_counter_counts_what_goes_through_it() {
    let mut counter = WriteCounter::new(vec![1, 2, 3]);
    assert_eq!(counter.bytes_written(), 0);
    assert_eq!(counter.write(&[4, 5]), 2);
    assert_eq!(counter.write(&[]), 0);
    assert_eq!(counter.write(&[6]), 1);
    counter.flush();
    assert_eq!(counter.bytes_written(), 3);
    assert_eq!(counter.into_inner(), vec![1, 2, 3, 4, 5, 6]);
}
