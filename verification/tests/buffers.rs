use minirenderer::buffer::{Buffer, BufferType};
use minirenderer::observable::ObservableData;
use minirenderer::uniform_buffer::UniformBuffer;

#[test]
fn observable_data_tracks_changes() {
    let mut d: ObservableData<u32> = ObservableData::new(7);
    assert!(!d.is_dirty());
    assert_eq!(*d.get(), 7);
    d.set(9);
    assert!(d.is_dirty());
    assert_eq!(*d.get(), 9);
    d.clear_dirty();
    assert!(!d.is_dirty());
    assert_eq!(*d.get(), 9);
    d.set(9);
    assert!(d.is_dirty());
}

#[test]
fn buffer_holds_its_creation_bytes() {
    let b = Buffer::create_buffer_from_bytes(&[1, 2, 3, 4], BufferType::Vertex);
    assert_eq!(b.get_size(), 4);
    assert_eq!(b.get_buffer().as_slice(), &[1, 2, 3, 4]);
}

#[test]
fn buffer_update_overwrites_prefix() {
    let mut b = Buffer::create_buffer_from_bytes(&[0, 0, 0, 0, 9], BufferType::Uniform);
    b.update(&[5, 6, 7, 8]);
    assert_eq!(b.get_buffer().as_slice(), &[5, 6, 7, 8, 9]);
    b.write_at(1, &[1, 1]);
    assert_eq!(b.get_buffer().as_slice(), &[5, 1, 1, 8, 9]);
}

#[test]
fn buffer_copy_takes_its_own_size() {
    let src = Buffer::create_buffer_from_bytes(&[9, 8, 7, 6, 5], BufferType::Uniform);
    let mut dst = Buffer::create_buffer_from_bytes(&[0, 0, 0], BufferType::Uniform);
    dst.copy_buffer(&src);
    assert_eq!(dst.get_buffer().as_slice(), &[9, 8, 7]);
    assert_eq!(dst.get_size(), 3);
}

#[test]
fn uniform_upload_is_pull_based() {
    // Setting a payload leaves the device copy alone; the sync uploads it
    // exactly once; omitting the sync keeps the last upload.
    let mut ub = UniformBuffer::new(vec![1, 2, 3]);
    assert_eq!(ub.get_buffer().as_slice(), &[1, 2, 3]);
    assert!(!ub.is_dirty());

    ub.set_data(vec![4, 5, 6]);
    assert!(ub.is_dirty());
    assert_eq!(ub.get_data().as_slice(), &[4, 5, 6]);
    assert_eq!(ub.get_buffer().as_slice(), &[1, 2, 3]);

    ub.update();
    assert!(!ub.is_dirty());
    assert_eq!(ub.get_buffer().as_slice(), &[4, 5, 6]);

    ub.set_data(vec![7, 7, 7]);
    assert_eq!(ub.get_buffer().as_slice(), &[4, 5, 6]);

    ub.update();
    assert_eq!(ub.get_buffer().as_slice(), &[7, 7, 7]);
    ub.update();
    assert_eq!(ub.get_buffer().as_slice(), &[7, 7, 7]);
}
