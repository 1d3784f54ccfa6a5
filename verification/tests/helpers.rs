use uwu::expect::expect;
use uwu::innocent_linked_list::Node;
use uwu::scratch::Scratch;
use uwu::unroll_int::x;

#[test]
fn assert_bool() {
    expect(true).is_true();
    expect(false).is_false();
}

#[test]
fn assert_equal() {
    expect(1).equals(1);
    expect(2).not_equals(1);
}

#[test]
fn assert_str() {
    expect("uwu owo").contains("uwu");
    expect("uwu owo".to_owned()).contains("uwu");
}

fn inner<'a>(list: &'a mut Node<'a, u8>) {
    list.push(1, |_list| {});
}

#[test]
fn push() {
    let mut list = Node::<u8>::new(0);

    inner(&mut list);
}

#[test]
fn simple_scratch() {
    let mut buffer = [std::mem::MaybeUninit::<u8>::uninit(); 100];
    let mut scratch = Scratch::new(&mut buffer);
    scratch.write(10u32);
    let read_back: u32 = scratch.read();
    assert_eq!(read_back, 0);
}

#[test]
fn zero_array() {
    x();
}
