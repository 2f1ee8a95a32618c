//! The building blocks, each exercised on its own.

use replace::arena::MemoryArena;
use replace::filepath::Filepath;
use replace::sink::FlushableArena;
use replace::strview::Store;
use replace::table::{NameValue, NameValueArray};
use replace::token::{Token, TokenType, Tokeniser};
use replace::Error;

#[test]
fn arena_push_and_copy_appends() {
    let mut a = MemoryArena::new(16);
    let src = b"hello".to_vec();
    a.push_byte(b'[').unwrap();
    a.push_and_copy(&src, 0, 5).unwrap();
    a.push_byte(b']').unwrap();
    assert_eq!(a.to_vec(), b"[hello]".to_vec());
}

#[test]
fn arena_overflow_is_checked() {
    let mut a = MemoryArena::new(3);
    let src = b"abcd".to_vec();
    assert_eq!(a.push_and_copy(&src, 0, 4), Err(Error::CapacityExceeded));
    // The failed push left nothing behind.
    assert_eq!(a.to_vec(), Vec::<u8>::new());
    assert_eq!(a.push_and_copy(&src, 0, 3), Ok(0));
    assert_eq!(a.push_byte(b'x'), Err(Error::CapacityExceeded));
}

#[test]
fn arena_push_size_reserves_zeroed_room() {
    let mut a = MemoryArena::new(8);
    let off = a.push_size(3).unwrap();
    assert_eq!(off, 0);
    assert_eq!(a.to_vec(), vec![0u8, 0, 0]);
    assert_eq!(a.push_size(6), Err(Error::CapacityExceeded));
}

#[test]
fn arena_temporary_scopes_rewind_in_lifo_order() {
    let mut a = MemoryArena::new(16);
    let src = b"abcdef".to_vec();
    a.push_and_copy(&src, 0, 2).unwrap();
    let outer = a.begin_temporary();
    a.push_and_copy(&src, 2, 4).unwrap();
    let inner = a.begin_temporary();
    a.push_and_copy(&src, 4, 6).unwrap();
    assert_eq!(a.to_vec(), b"abcdef".to_vec());
    inner.end(&mut a);
    assert_eq!(a.to_vec(), b"abcd".to_vec());
    outer.reset(&mut a);
    assert_eq!(a.to_vec(), b"ab".to_vec());
    outer.end(&mut a);
    assert_eq!(a.to_vec(), b"ab".to_vec());
}

#[test]
fn store_views_trim_and_compare() {
    let mut store = Store::new();
    let v = store.push_text(b"  padded value \n".to_vec());
    let t = store.trim(v);
    assert_eq!(store.read_out(t), b"padded value".to_vec());
    let all_ws = store.push_text(b" \t\r\n ".to_vec());
    let t2 = store.trim(all_ws);
    assert_eq!(t2.len, 0);
    let w = store.push_text(b"padded value".to_vec());
    assert!(store.str_eq(t, w));
    let x = store.push_text(b"padded valuE".to_vec());
    assert!(!store.str_eq(t, x));
    let shorter = store.push_text(b"padded".to_vec());
    assert!(!store.str_eq(t, shorter));
}

#[test]
fn subview_is_zero_copy_slicing() {
    let mut store = Store::new();
    let v = store.push_text(b"abcdef".to_vec());
    let mid = store.subview(v, 2, 5);
    assert_eq!(store.read_out(mid), b"cde".to_vec());
    assert_eq!(mid.buf, v.buf);
}

#[test]
fn filepath_composes_component_path() {
    let mut store = Store::new();
    let dir = store.push_text(b"src".to_vec());
    let name = store.push_text(b"Header".to_vec());
    let ext = store.push_text(b"html".to_vec());
    let mut fp = Filepath::new(64);
    let p = fp.build_path(&store, dir, name, ext).unwrap();
    assert_eq!(p, b"src/Header.html\0".to_vec());
    // The buffer is reusable: a second path starts over cleanly.
    let p2 = fp.build_entry_path(&store, dir, name).unwrap();
    assert_eq!(p2, b"src/Header\0".to_vec());
}

#[test]
fn filepath_builds_step_by_step() {
    let mut store = Store::new();
    let dir = store.push_text(b"assets".to_vec());
    let name = store.push_text(b"Logo".to_vec());
    let ext = store.push_text(b"svg".to_vec());
    let mut fp = Filepath::new(32);
    fp.new_path(&store, dir).unwrap();
    fp.add_entry(&store, name).unwrap();
    fp.add_ext(&store, ext).unwrap();
    assert_eq!(fp.get_string().unwrap(), b"assets/Logo.svg\0".to_vec());
}

#[test]
fn filepath_overflow_is_checked() {
    let mut store = Store::new();
    let dir = store.push_text(b"src".to_vec());
    let name = store.push_text(b"Header".to_vec());
    let ext = store.push_text(b"html".to_vec());
    let mut fp = Filepath::new(10);
    assert_eq!(fp.build_path(&store, dir, name, ext), Err(Error::CapacityExceeded));
}

#[test]
fn name_value_array_first_match_wins() {
    let mut store = Store::new();
    let k = store.push_text(b"key".to_vec());
    let v1 = store.push_text(b"one".to_vec());
    let v2 = store.push_text(b"two".to_vec());
    let other = store.push_text(b"zzz".to_vec());
    let mut t = NameValueArray::new();
    t.push_entry(NameValue { name: k, value: v1 });
    t.push_entry(NameValue { name: k, value: v2 });
    let hit = t.find_by_name(&store, k).unwrap();
    assert_eq!(store.read_out(hit.value), b"one".to_vec());
    assert!(t.find_by_name(&store, other).is_none());
    assert_eq!(t.len(), 2);
}

#[test]
fn sink_flushes_when_full_and_streams_in_order() {
    let mut store = Store::new();
    let ab = store.push_text(b"ab".to_vec());
    let cde = store.push_text(b"cde".to_vec());
    let f = store.push_text(b"f".to_vec());
    let mut sink = FlushableArena::new(4);
    sink.push_and_copy(&store, ab).unwrap();
    sink.push_and_copy(&store, cde).unwrap();
    sink.push_and_copy(&store, f).unwrap();
    assert_eq!(sink.take_output(), b"abcdef".to_vec());
}

#[test]
fn sink_refuses_chunk_beyond_capacity() {
    let mut store = Store::new();
    let big = store.push_text(b"abcdef".to_vec());
    let mut sink = FlushableArena::new(4);
    assert_eq!(sink.push_and_copy(&store, big), Err(Error::CapacityExceeded));
}

#[test]
fn tokeniser_reads_all_four_token_kinds() {
    let mut store = Store::new();
    let v = store.push_text(b"pre<Btn a=\"1\" bb=\"x y\" />$ref{{Card meta\n body }}tail".to_vec());
    let mut tk = Tokeniser::new(v);

    match tk.next_token(&store).unwrap().unwrap() {
        Token::Text(t) => assert_eq!(store.read_out(t), b"pre".to_vec()),
        _ => panic!("expected text"),
    }
    match tk.next_token(&store).unwrap().unwrap() {
        Token::ComponentTag(tag) => {
            assert_eq!(store.read_out(tag.name), b"Btn".to_vec());
            assert_eq!(tag.args.len(), 2);
            let a0 = tag.args.index(0);
            assert_eq!(store.read_out(a0.name), b"a".to_vec());
            assert_eq!(store.read_out(a0.value), b"1".to_vec());
            let a1 = tag.args.index(1);
            assert_eq!(store.read_out(a1.name), b"bb".to_vec());
            assert_eq!(store.read_out(a1.value), b"x y".to_vec());
        },
        _ => panic!("expected component tag"),
    }
    match tk.next_token(&store).unwrap().unwrap() {
        Token::Argument(n) => assert_eq!(store.read_out(n), b"ref".to_vec()),
        _ => panic!("expected argument"),
    }
    match tk.next_token(&store).unwrap().unwrap() {
        Token::InlineComponent(nv) => {
            assert_eq!(store.read_out(nv.name), b"Card".to_vec());
            assert_eq!(store.read_out(nv.value), b"body".to_vec());
        },
        _ => panic!("expected inline component"),
    }
    match tk.next_token(&store).unwrap().unwrap() {
        Token::Text(t) => assert_eq!(store.read_out(t), b"tail".to_vec()),
        _ => panic!("expected text"),
    }
    assert!(tk.next_token(&store).is_none());
}

#[test]
fn tokeniser_classifies_current_position() {
    let mut store = Store::new();
    let v = store.push_text(b"x<B />".to_vec());
    let mut tk = Tokeniser::new(v);
    assert_eq!(tk.current_token(&store), Some(TokenType::Text));
    assert!(tk.advance());
    assert_eq!(tk.current_token(&store), Some(TokenType::ComponentTag));
    let w = store.push_text(b"$a{{".to_vec());
    let mut tk2 = Tokeniser::new(w);
    assert_eq!(tk2.current_token(&store), Some(TokenType::Argument));
    tk2.advance();
    tk2.advance();
    assert_eq!(tk2.current_token(&store), Some(TokenType::InlineComponent));
    tk2.advance();
    tk2.advance();
    assert_eq!(tk2.current_token(&store), None);
}

#[test]
fn tokeniser_reports_malformed_tag() {
    let mut store = Store::new();
    let v = store.push_text(b"<Btn a=1 />".to_vec());
    let mut tk = Tokeniser::new(v);
    match tk.next_token(&store).unwrap() {
        Err(e) => assert_eq!(e, Error::SyntaxError),
        Ok(_) => panic!("expected a syntax error"),
    }
}

#[test]
fn tokeniser_peek_and_advance_walk_the_view() {
    let mut store = Store::new();
    let v = store.push_text(b"ab".to_vec());
    let mut tk = Tokeniser::new(v);
    assert_eq!(tk.peek(&store, 0), Some(b'a'));
    assert_eq!(tk.peek(&store, 1), Some(b'b'));
    assert_eq!(tk.peek(&store, 2), None);
    assert!(tk.advance());
    assert_eq!(tk.peek(&store, 0), Some(b'b'));
    // Advancing off the last byte leaves nothing to peek, not even the
    // current position.
    assert!(!tk.advance());
    assert_eq!(tk.peek(&store, 0), None);
    assert!(!tk.advance());
}

#[test]
fn store_copy_duplicates_bytes_into_a_fresh_buffer() {
    let mut store = Store::new();
    let v = store.push_text(b"abcdef".to_vec());
    let part = store.subview(v, 1, 4);
    let copied = store.copy(part);
    assert_ne!(copied.buf, part.buf);
    assert_eq!(store.read_out(copied), b"bcd".to_vec());
}

#[test]
fn tokeniser_lone_specials_are_text() {
    let mut store = Store::new();
    let v = store.push_text(b"a < b $ c { d".to_vec());
    let mut tk = Tokeniser::new(v);
    match tk.next_token(&store).unwrap().unwrap() {
        Token::Text(t) => assert_eq!(store.read_out(t), b"a < b $ c { d".to_vec()),
        _ => panic!("expected one text token"),
    }
    assert!(tk.next_token(&store).is_none());
}
