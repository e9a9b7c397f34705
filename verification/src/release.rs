//! The releases that can be downloaded.

use vstd::prelude::*;

use crate::runtime;
use crate::runtime::platform_from_asset_name;

verus! {

/// A file of a release.
pub struct FoundAsset {
    pub name: String,
    pub download_url: String,
}

/// A file of a release that can be imported.
pub struct ReleaseAsset {
    pub name: String,
    pub download_url: String,
    pub platform: Option<String>,
}

/// A file of a release that can be imported, by its texts.
pub struct ReleaseAssetView {
    pub name: Seq<char>,
    pub download_url: Seq<char>,
    pub platform: Option<Seq<char>>,
}

impl View for ReleaseAsset {
    type V = ReleaseAssetView;

    open spec fn view(&self) -> ReleaseAssetView {
        ReleaseAssetView {
            name: self.name@,
            download_url: self.download_url@,
            platform: crate::text::text_option(self.platform),
        }
    }
}

/// A release.
pub struct ReleaseInfo {
    pub version: String,
    pub html_url: String,
    pub assets: Vec<ReleaseAsset>,
}

/// The files that can be imported, by their texts.
pub open spec fn asset_views(assets: Seq<ReleaseAsset>) -> Seq<ReleaseAssetView> {
    assets.map_values(|asset: ReleaseAsset| asset@)
}

/// The files are seen with the texts of their own fields, in their order.
pub proof fn law_assets_are_seen_as_they_are(assets: Seq<ReleaseAsset>, i: int)
    ensures
        asset_views(assets).len() == assets.len(),
        0 <= i < assets.len() ==> asset_views(assets)[i].name == assets[i].name@ && asset_views(
            assets,
        )[i].download_url == assets[i].download_url@ && (assets[i].platform is Some
            <==> asset_views(assets)[i].platform is Some) && (assets[i].platform is Some
            ==> asset_views(assets)[i].platform->0 == assets[i].platform->0@),
{
}

/// The files of a supported platform, in their order.
pub open spec fn offered(found: Seq<FoundAsset>) -> Seq<ReleaseAssetView>
    decreases found.len(),
{
    if found.len() == 0 {
        Seq::empty()
    } else {
        let init = offered(found.drop_last());
        let name = found.last().name@;
        if runtime::release_name(name) && runtime::name_platform(name) is Some {
            init.push(
                ReleaseAssetView {
                    name,
                    download_url: found.last().download_url@,
                    platform: runtime::name_platform(name),
                },
            )
        } else {
            init
        }
    }
}

/// The name of a file tells a supported platform.
pub open spec fn supported(name: Seq<char>) -> bool {
    runtime::release_name(name) && runtime::name_platform(name) is Some
}

/// `assets` are the files at the places `at`, which increase: each with its own
/// name, download URL and platform, and no file with a supported platform is left
/// out.
pub open spec fn taken_from(
    assets: Seq<ReleaseAssetView>,
    found: Seq<FoundAsset>,
    at: Seq<int>,
) -> bool {
    &&& at.len() == assets.len()
    &&& forall|j: int| 0 <= j < at.len() ==> 0 <= #[trigger] at[j] < found.len()
    &&& forall|j: int, k: int| 0 <= j < k < at.len() ==> #[trigger] at[j] < #[trigger] at[k]
    &&& forall|j: int|
        0 <= j < at.len() ==> supported(found[#[trigger] at[j]].name@) && assets[j].name
            == found[at[j]].name@ && assets[j].download_url == found[at[j]].download_url@
            && assets[j].platform == runtime::name_platform(found[at[j]].name@)
    &&& forall|i: int|
        0 <= i < found.len() && supported((#[trigger] found[i]).name@) ==> at.contains(i)
}

/// Exactly the files whose names tell a supported platform are offered, in the
/// order of the release, each once and with its own name and download URL.
pub proof fn law_supported_files_are_offered(found: Seq<FoundAsset>)
    ensures
        exists|at: Seq<int>| #[trigger] taken_from(offered(found), found, at),
    decreases found.len(),
{
    if found.len() == 0 {
        assert(taken_from(offered(found), found, Seq::<int>::empty()));
    } else {
        let init = found.drop_last();
        law_supported_files_are_offered(init);
        let at = choose|at: Seq<int>| #[trigger] taken_from(offered(init), init, at);
        let last = found.len() - 1;
        let more = at.push(last);
        if supported(found.last().name@) {
            assert forall|i: int|
                0 <= i < found.len() && supported((#[trigger] found[i]).name@) implies more.contains(
                i,
            ) by {
                if i < last {
                    assert(init[i] == found[i]);
                    let k = at.index_of(i);
                    assert(more[k] == i);
                } else {
                    assert(more[at.len() as int] == last);
                }
            }
            assert(taken_from(offered(found), found, more));
        } else {
            assert forall|i: int|
                0 <= i < found.len() && supported((#[trigger] found[i]).name@) implies at.contains(
                i,
            ) by {
                if i < last {
                    assert(init[i] == found[i]);
                } else {
                    assert(found[i] == found.last());
                }
            }
            assert(taken_from(offered(found), found, at));
        }
    }
}

/// A file whose name tells a supported platform is offered with its own name and
/// download URL.
pub proof fn law_supported_file_is_offered(found: Seq<FoundAsset>, i: int)
    requires
        0 <= i < found.len(),
        runtime::release_name(found[i].name@),
        runtime::name_platform(found[i].name@) is Some,
    ensures
        offered(found).contains(
            ReleaseAssetView {
                name: found[i].name@,
                download_url: found[i].download_url@,
                platform: runtime::name_platform(found[i].name@),
            },
        ),
        offered(found).len() <= found.len(),
    decreases found.len(),
{
    let asset = ReleaseAssetView {
        name: found[i].name@,
        download_url: found[i].download_url@,
        platform: runtime::name_platform(found[i].name@),
    };
    lemma_offered_len(found);
    if i < found.len() - 1 {
        let init = found.drop_last();
        law_supported_file_is_offered(init, i);
        let k = offered(init).index_of(asset);
        assert(offered(found)[k] == asset);
    } else {
        assert(offered(found)[offered(found).len() - 1] == asset);
    }
}

proof fn lemma_offered_len(found: Seq<FoundAsset>)
    ensures
        offered(found).len() <= found.len(),
    decreases found.len(),
{
    if found.len() > 0 {
        lemma_offered_len(found.drop_last());
    }
}

/// Each file that is offered is one of the release.
pub proof fn law_offered_files_are_of_the_release(found: Seq<FoundAsset>, j: int)
    requires
        0 <= j < offered(found).len(),
    ensures
        exists|i: int|
            0 <= i < found.len() && (#[trigger] found[i]).name@ == offered(found)[j].name
                && found[i].download_url@ == offered(found)[j].download_url,
{
    law_supported_files_are_offered(found);
    let at = choose|at: Seq<int>| #[trigger] taken_from(offered(found), found, at);
    assert(found[at[j]].name@ == offered(found)[j].name);
}

/// Of two files of supported platforms the one that comes first in the release
/// is offered first.
pub proof fn law_offers_keep_the_order(found: Seq<FoundAsset>, i: int, k: int)
    requires
        0 <= i < k < found.len(),
        runtime::release_name(found[i].name@),
        runtime::name_platform(found[i].name@) is Some,
        runtime::release_name(found[k].name@),
        runtime::name_platform(found[k].name@) is Some,
    ensures
        exists|a: int, b: int|
            0 <= a < b < offered(found).len() && (#[trigger] offered(found)[a]).name
                == found[i].name@ && offered(found)[a].download_url == found[i].download_url@
                && offered(found)[a].platform == runtime::name_platform(found[i].name@) && (
            #[trigger] offered(found)[b]).name == found[k].name@ && offered(found)[b].download_url
                == found[k].download_url@ && offered(found)[b].platform == runtime::name_platform(
                found[k].name@,
            ),
{
    law_supported_files_are_offered(found);
    let at = choose|at: Seq<int>| #[trigger] taken_from(offered(found), found, at);
    assert(supported(found[i].name@) && supported(found[k].name@));
    let a = at.index_of(i);
    let b = at.index_of(k);
    assert(at[a] == i && at[b] == k);
    if b <= a {
        if b < a {
            assert(at[b] < at[a]);
        }
    }
    assert(offered(found)[a].name == found[i].name@ && offered(found)[b].name == found[k].name@);
}

/// The release as it is offered: with the files of the supported platforms.
pub fn release_info(version: String, html_url: String, found: Vec<FoundAsset>) -> (info: ReleaseInfo)
    ensures
        info.version@ == version@,
        info.html_url@ == html_url@,
        asset_views(info.assets@) == offered(found@),
        exists|at: Seq<int>| #[trigger] taken_from(asset_views(info.assets@), found@, at),
{
    let mut assets: Vec<ReleaseAsset> = Vec::new();
    let mut i: usize = 0;
    assert(asset_views(assets@) =~= offered(found@.take(0)));
    while i < found.len()
        invariant
            i <= found@.len(),
            asset_views(assets@) == offered(found@.take(i as int)),
        decreases found@.len() - i,
    {
        let ghost views = asset_views(assets@);
        assert(found@.take(i + 1).drop_last() =~= found@.take(i as int));
        assert(found@.take(i + 1).last() == found@[i as int]);
        match platform_from_asset_name(found[i].name.as_str()) {
            Some(platform) => {
                assets.push(
                    ReleaseAsset {
                        name: found[i].name.clone(),
                        download_url: found[i].download_url.clone(),
                        platform: Some(platform),
                    },
                );
                assert(asset_views(assets@) =~= views.push(assets@.last()@));
            },
            None => {},
        }
        i = i + 1;
    }
    assert(found@.take(i as int) =~= found@);
    proof {
        law_supported_files_are_offered(found@);
        let at = choose|at: Seq<int>| #[trigger] taken_from(offered(found@), found@, at);
        assert(asset_views(assets@) == offered(found@));
        assert(taken_from(asset_views(assets@), found@, at));
    }
    ReleaseInfo { version, html_url, assets }
}

/// Every file that is offered can be imported: its name tells a version and a
/// supported platform.
pub proof fn law_offered_files_can_be_imported(found: Seq<FoundAsset>, i: int)
    requires
        0 <= i < offered(found).len(),
    ensures
        runtime::release_name(offered(found)[i].name),
        runtime::name_platform(offered(found)[i].name) is Some,
        offered(found)[i].platform == runtime::name_platform(offered(found)[i].name),
    decreases found.len(),
{
    if found.len() > 0 && i < offered(found.drop_last()).len() {
        law_offered_files_can_be_imported(found.drop_last(), i);
    }
}

} // verus!
