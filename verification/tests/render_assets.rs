use cat_engine::graphics::primitives::{CpuMeshHandle, MeshHandle};
use cat_engine::graphics::render_assets::{AssetError, MeshUploader, RenderAssets};

struct CountingUploader {
    uploads: u32,
    fail: bool,
}

impl MeshUploader<&'static str> for CountingUploader {
    fn upload_mesh(&mut self, mesh: &&'static str) -> Result<MeshHandle, String> {
        if self.fail {
            return Err(format!("cannot upload {mesh}"));
        }
        self.uploads += 1;
        Ok(MeshHandle(100 + self.uploads))
    }
}

#[test]
fn meshes_are_uploaded_once_and_cached() {
    let mut assets = RenderAssets::new();
    let cube = assets.register_mesh("cube");
    let tri = assets.register_mesh("tri");
    assert_eq!(cube, CpuMeshHandle(0));
    assert_eq!(tri, CpuMeshHandle(1));
    assert_eq!(assets.cpu_mesh(tri), Some(&"tri"));
    assert_eq!(assets.cpu_mesh(CpuMeshHandle(2)), None);
    let mut up = CountingUploader { uploads: 0, fail: false };
    let first = assets.gpu_mesh_handle(&mut up, cube).unwrap();
    let again = assets.gpu_mesh_handle(&mut up, cube).unwrap();
    assert_eq!(first, MeshHandle(101));
    assert_eq!(again, first);
    assert_eq!(up.uploads, 1);
    assert_eq!(assets.gpu_mesh_handle(&mut up, tri).unwrap(), MeshHandle(102));
}

#[test]
fn unknown_handles_and_failed_uploads_are_errors() {
    let mut assets = RenderAssets::new();
    let cube = assets.register_mesh("cube");
    let mut up = CountingUploader { uploads: 0, fail: true };
    assert!(matches!(
        assets.gpu_mesh_handle(&mut up, CpuMeshHandle(5)),
        Err(AssetError::InvalidCpuMeshHandle)
    ));
    match assets.gpu_mesh_handle(&mut up, cube) {
        Err(AssetError::Upload(msg)) => assert_eq!(msg, "cannot upload cube"),
        other => panic!("unexpected {other:?}"),
    }
    up.fail = false;
    assert_eq!(assets.gpu_mesh_handle(&mut up, cube).unwrap(), MeshHandle(101));
}

#[test]
fn the_mesh_to_upload_is_the_registered_one_and_answers_are_recorded() {
    let mut assets = RenderAssets::new();
    let cube = assets.register_mesh("cube");
    let tri = assets.register_mesh("tri");
    assert_eq!(assets.mesh_to_upload(tri), Some(&"tri"));
    assert_eq!(assets.mesh_to_upload(CpuMeshHandle(9)), None);
    assert_eq!(assets.record_upload(tri, Ok(MeshHandle(7))).unwrap(), MeshHandle(7));
    assert_eq!(assets.mesh_to_upload(tri), None);
    match assets.record_upload(cube, Err("broken".to_string())) {
        Err(AssetError::Upload(msg)) => assert_eq!(msg, "broken"),
        other => panic!("unexpected {other:?}"),
    }
    assert_eq!(assets.mesh_to_upload(cube), Some(&"cube"));
    let mut up = CountingUploader { uploads: 0, fail: false };
    assert_eq!(assets.gpu_mesh_handle(&mut up, tri).unwrap(), MeshHandle(7));
    assert_eq!(up.uploads, 0);
}
