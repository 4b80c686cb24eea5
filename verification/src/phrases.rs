//! No text of the window is translated twice: the Chinese forms differ from all
//! English texts.
use crate::i18n::{in_chinese, row_of, Language, CHINESE};
use vstd::prelude::*;

verus! {

/// There is a character there, and it is not an ASCII one.
pub open spec fn is_wide_at(s: Seq<char>, place: int) -> bool {
    place < s.len() && s[place] as u32 >= 128
}

/// The text is not ASCII, as its beginning shows.
pub open spec fn is_wide(s: Seq<char>) -> bool {
    ||| is_wide_at(s, 0)
    ||| is_wide_at(s, 2)
    ||| is_wide_at(s, 3)
    ||| is_wide_at(s, 4)
    ||| is_wide_at(s, 6)
    ||| is_wide_at(s, 7)
    ||| is_wide_at(s, 9)
    ||| is_wide_at(s, 11)
    ||| is_wide_at(s, 13)
    ||| is_wide_at(s, 14)
}

/// The row leads from a text in ASCII to one that is not.
pub open spec fn row_is_apart(row: int) -> bool {
    !is_wide(CHINESE@[row].0@) && is_wide(CHINESE@[row].1@)
}

proof fn rows_from_0()
    ensures
        forall|row: int| 0 <= row < 10 ==> #[trigger] row_is_apart(row),
{
    assert(row_is_apart(0)) by {
        reveal_strlit("Wallet");
        reveal_strlit("钱包");
        assert(is_wide_at(CHINESE@[0].1@, 0));
    }
    assert(row_is_apart(1)) by {
        reveal_strlit("Passcode");
        reveal_strlit("锁屏密码");
        assert(is_wide_at(CHINESE@[1].1@, 0));
    }
    assert(row_is_apart(2)) by {
        reveal_strlit("Help");
        reveal_strlit("帮助");
        assert(is_wide_at(CHINESE@[2].1@, 0));
    }
    assert(row_is_apart(3)) by {
        reveal_strlit("Refresh");
        reveal_strlit("刷新");
        assert(is_wide_at(CHINESE@[3].1@, 0));
    }
    assert(row_is_apart(4)) by {
        reveal_strlit("Auto (USB preferred)");
        reveal_strlit("自动（优先 USB）");
        assert(is_wide_at(CHINESE@[4].1@, 0));
    }
    assert(row_is_apart(5)) by {
        reveal_strlit("USB only");
        reveal_strlit("仅 USB");
        assert(is_wide_at(CHINESE@[5].1@, 0));
    }
    assert(row_is_apart(6)) by {
        reveal_strlit("WiFi only");
        reveal_strlit("仅 WiFi");
        assert(is_wide_at(CHINESE@[6].1@, 0));
    }
    assert(row_is_apart(7)) by {
        reveal_strlit("No device");
        reveal_strlit("没有设备");
        assert(is_wide_at(CHINESE@[7].1@, 0));
    }
    assert(row_is_apart(8)) by {
        reveal_strlit("Ready");
        reveal_strlit("就绪");
        assert(is_wide_at(CHINESE@[8].1@, 0));
    }
    assert(row_is_apart(9)) by {
        reveal_strlit("Unavailable");
        reveal_strlit("不可用");
        assert(is_wide_at(CHINESE@[9].1@, 0));
    }
}

proof fn rows_from_10()
    ensures
        forall|row: int| 10 <= row < 20 ==> #[trigger] row_is_apart(row),
{
    assert(row_is_apart(10)) by {
        reveal_strlit("Logs");
        reveal_strlit("日志");
        assert(is_wide_at(CHINESE@[10].1@, 0));
    }
    assert(row_is_apart(11)) by {
        reveal_strlit("Logs [x]");
        reveal_strlit("日志 [x]");
        assert(is_wide_at(CHINESE@[11].1@, 0));
    }
    assert(row_is_apart(12)) by {
        reveal_strlit("Copy Logs");
        reveal_strlit("复制日志");
        assert(is_wide_at(CHINESE@[12].1@, 0));
    }
    assert(row_is_apart(13)) by {
        reveal_strlit("Save to File...");
        reveal_strlit("保存到文件...");
        assert(is_wide_at(CHINESE@[13].1@, 0));
    }
    assert(row_is_apart(14)) by {
        reveal_strlit("Clear");
        reveal_strlit("清空");
        assert(is_wide_at(CHINESE@[14].1@, 0));
    }
    assert(row_is_apart(15)) by {
        reveal_strlit("No events logged yet.");
        reveal_strlit("暂无日志记录。");
        assert(is_wide_at(CHINESE@[15].1@, 0));
    }
    assert(row_is_apart(16)) by {
        reveal_strlit("Language");
        reveal_strlit("语言");
        assert(is_wide_at(CHINESE@[16].1@, 0));
    }
    assert(row_is_apart(17)) by {
        reveal_strlit("English");
        reveal_strlit("英语");
        assert(is_wide_at(CHINESE@[17].1@, 0));
    }
    assert(row_is_apart(18)) by {
        reveal_strlit("Simplified Chinese");
        reveal_strlit("简体中文");
        assert(is_wide_at(CHINESE@[18].1@, 0));
    }
    assert(row_is_apart(19)) by {
        reveal_strlit("Language changed.");
        reveal_strlit("语言已切换。");
        assert(is_wide_at(CHINESE@[19].1@, 0));
    }
}

proof fn rows_from_20()
    ensures
        forall|row: int| 20 <= row < 30 ==> #[trigger] row_is_apart(row),
{
    assert(row_is_apart(20)) by {
        reveal_strlit("Transport mode");
        reveal_strlit("连接方式");
        assert(is_wide_at(CHINESE@[20].1@, 0));
    }
    assert(row_is_apart(21)) by {
        reveal_strlit("entries");
        reveal_strlit("条记录");
        assert(is_wide_at(CHINESE@[21].1@, 0));
    }
    assert(row_is_apart(22)) by {
        reveal_strlit("Ready. Connect iPhone via USB or paired WiFi and unlock it.");
        reveal_strlit("就绪。请通过 USB 或已配对的 WiFi 连接并解锁 iPhone。");
        assert(is_wide_at(CHINESE@[22].1@, 0));
    }
    assert(row_is_apart(23)) by {
        reveal_strlit("No iPhone connected via USB or paired WiFi.");
        reveal_strlit("未检测到通过 USB 或已配对 WiFi 连接的 iPhone。");
        assert(is_wide_at(CHINESE@[23].1@, 0));
    }
    assert(row_is_apart(24)) by {
        reveal_strlit("Please select a connected iPhone.");
        reveal_strlit("请选择已连接的 iPhone。");
        assert(is_wide_at(CHINESE@[24].1@, 0));
    }
    assert(row_is_apart(25)) by {
        reveal_strlit("Disconnect the USB cable and refresh to guarantee the full AirTraffic path uses WiFi.");
        reveal_strlit("请断开 USB 线并刷新，以确保完整的 AirTraffic 路径使用 WiFi。");
        assert(is_wide_at(CHINESE@[25].1@, 0));
    }
    assert(row_is_apart(26)) by {
        reveal_strlit("Please enter or scan a target card hash.");
        reveal_strlit("请输入或扫描目标卡片 Hash。");
        assert(is_wide_at(CHINESE@[26].1@, 0));
    }
    assert(row_is_apart(27)) by {
        reveal_strlit("Please choose a card skin image first.");
        reveal_strlit("请先选择卡片皮肤图片。");
        assert(is_wide_at(CHINESE@[27].1@, 0));
    }
    assert(row_is_apart(28)) by {
        reveal_strlit("Crop position updated.");
        reveal_strlit("裁切位置已更新。");
        assert(is_wide_at(CHINESE@[28].1@, 0));
    }
    assert(row_is_apart(29)) by {
        reveal_strlit("Scanning syslog... Open Wallet or tap your card on iPhone.");
        reveal_strlit("正在扫描 syslog... 请在 iPhone 上打开钱包并点击卡片。");
        assert(is_wide_at(CHINESE@[29].1@, 0));
    }
}

proof fn rows_from_30()
    ensures
        forall|row: int| 30 <= row < 40 ==> #[trigger] row_is_apart(row),
{
    assert(row_is_apart(30)) by {
        reveal_strlit("Syslog scanning stopped.");
        reveal_strlit("syslog 扫描已停止。");
        assert(is_wide_at(CHINESE@[30].1@, 7));
    }
    assert(row_is_apart(31)) by {
        reveal_strlit("Stopping wallet scan...");
        reveal_strlit("正在停止钱包扫描...");
        assert(is_wide_at(CHINESE@[31].1@, 0));
    }
    assert(row_is_apart(32)) by {
        reveal_strlit("Writing card skin to iPhone...");
        reveal_strlit("正在将卡片皮肤写入 iPhone...");
        assert(is_wide_at(CHINESE@[32].1@, 0));
    }
    assert(row_is_apart(33)) by {
        reveal_strlit("Please select a .passthm theme file first.");
        reveal_strlit("请先选择一个 .passthm 主题文件。");
        assert(is_wide_at(CHINESE@[33].1@, 0));
    }
    assert(row_is_apart(34)) by {
        reveal_strlit("Writing passcode theme buttons...");
        reveal_strlit("正在将锁屏密码主题按钮写入 iPhone...");
        assert(is_wide_at(CHINESE@[34].1@, 0));
    }
    assert(row_is_apart(35)) by {
        reveal_strlit("Syslog scan finished");
        reveal_strlit("syslog 扫描完成");
        assert(is_wide_at(CHINESE@[35].1@, 7));
    }
    assert(row_is_apart(36)) by {
        reveal_strlit("Card skin successfully flashed! Force quit Wallet on iPhone and reopen it.");
        reveal_strlit("卡片皮肤应用成功！请在 iPhone 上强制关闭并重新打开 Wallet。");
        assert(is_wide_at(CHINESE@[36].1@, 0));
    }
    assert(row_is_apart(37)) by {
        reveal_strlit("Passcode theme applied! Lock your iPhone to view the new keypad.");
        reveal_strlit("锁屏密码主题应用成功！锁定 iPhone 查看新的键盘样式。");
        assert(is_wide_at(CHINESE@[37].1@, 0));
    }
    assert(row_is_apart(38)) by {
        reveal_strlit("Card skin updated successfully!");
        reveal_strlit("卡片皮肤更新成功！");
        assert(is_wide_at(CHINESE@[38].1@, 0));
    }
    assert(row_is_apart(39)) by {
        reveal_strlit("Artwork submitted. Reopen Wallet to verify.");
        reveal_strlit("图片已提交。请重新打开 Wallet 验证效果。");
        assert(is_wide_at(CHINESE@[39].1@, 0));
    }
}

proof fn rows_from_40()
    ensures
        forall|row: int| 40 <= row < 50 ==> #[trigger] row_is_apart(row),
{
    assert(row_is_apart(40)) by {
        reveal_strlit("Artwork submitted. Force quit Wallet and reopen it to verify the appearance.");
        reveal_strlit("图片已提交。请强制关闭并重新打开 Wallet 验证效果。");
        assert(is_wide_at(CHINESE@[40].1@, 0));
    }
    assert(row_is_apart(41)) by {
        reveal_strlit("Open Wallet and open the card details. For supported transit cards, turn on Service Mode while scanning.");
        reveal_strlit("请打开 Wallet 并进入卡片详情；对于支持的交通卡，扫描时请开启 Service Mode。");
        assert(is_wide_at(CHINESE@[41].1@, 0));
    }
    assert(row_is_apart(42)) by {
        reveal_strlit("Restoring original card face...");
        reveal_strlit("正在恢复原卡面...");
        assert(is_wide_at(CHINESE@[42].1@, 0));
    }
    assert(row_is_apart(43)) by {
        reveal_strlit("Restoring original card artwork...");
        reveal_strlit("正在恢复原卡面图片...");
        assert(is_wide_at(CHINESE@[43].1@, 0));
    }
    assert(row_is_apart(44)) by {
        reveal_strlit("Clearing .cache cache...");
        reveal_strlit("正在清理 .cache 缓存...");
        assert(is_wide_at(CHINESE@[44].1@, 0));
    }
    assert(row_is_apart(45)) by {
        reveal_strlit("Clearing .pkcache cache...");
        reveal_strlit("正在清理 .pkcache 缓存...");
        assert(is_wide_at(CHINESE@[45].1@, 0));
    }
    assert(row_is_apart(46)) by {
        reveal_strlit("Original card face restored successfully!");
        reveal_strlit("原卡面恢复成功！");
        assert(is_wide_at(CHINESE@[46].1@, 0));
    }
    assert(row_is_apart(47)) by {
        reveal_strlit("Original card face restored. Force close Wallet and reopen it.");
        reveal_strlit("原卡面已恢复。请强制关闭并重新打开 Wallet。");
        assert(is_wide_at(CHINESE@[47].1@, 0));
    }
    assert(row_is_apart(48)) by {
        reveal_strlit("Original card backup not found.");
        reveal_strlit("未找到原卡面备份。");
        assert(is_wide_at(CHINESE@[48].1@, 0));
    }
    assert(row_is_apart(49)) by {
        reveal_strlit("Apply a card skin once to create an original backup.");
        reveal_strlit("先应用一次卡片皮肤以创建原卡面备份。");
        assert(is_wide_at(CHINESE@[49].1@, 0));
    }
}

proof fn rows_from_50()
    ensures
        forall|row: int| 50 <= row < 60 ==> #[trigger] row_is_apart(row),
{
    assert(row_is_apart(50)) by {
        reveal_strlit("Passcode theme applied successfully!");
        reveal_strlit("锁屏密码主题应用成功！");
        assert(is_wide_at(CHINESE@[50].1@, 0));
    }
    assert(row_is_apart(51)) by {
        reveal_strlit("Failed to parse theme:");
        reveal_strlit("解析主题失败：");
        assert(is_wide_at(CHINESE@[51].1@, 0));
    }
    assert(row_is_apart(52)) by {
        reveal_strlit("Card captured");
        reveal_strlit("已捕获卡片");
        assert(is_wide_at(CHINESE@[52].1@, 0));
    }
    assert(row_is_apart(53)) by {
        reveal_strlit("Loaded");
        reveal_strlit("已加载");
        assert(is_wide_at(CHINESE@[53].1@, 0));
    }
    assert(row_is_apart(54)) by {
        reveal_strlit("target:");
        reveal_strlit("目标：");
        assert(is_wide_at(CHINESE@[54].1@, 0));
    }
    assert(row_is_apart(55)) by {
        reveal_strlit("lang:");
        reveal_strlit("语言：");
        assert(is_wide_at(CHINESE@[55].1@, 0));
    }
    assert(row_is_apart(56)) by {
        reveal_strlit("bold:");
        reveal_strlit("粗体：");
        assert(is_wide_at(CHINESE@[56].1@, 0));
    }
    assert(row_is_apart(57)) by {
        reveal_strlit("ON");
        reveal_strlit("开");
        assert(is_wide_at(CHINESE@[57].1@, 0));
    }
    assert(row_is_apart(58)) by {
        reveal_strlit("OFF");
        reveal_strlit("关");
        assert(is_wide_at(CHINESE@[58].1@, 0));
    }
    assert(row_is_apart(59)) by {
        reveal_strlit("Error: ");
        reveal_strlit("错误：");
        assert(is_wide_at(CHINESE@[59].1@, 0));
    }
}

proof fn rows_from_60()
    ensures
        forall|row: int| 60 <= row < 70 ==> #[trigger] row_is_apart(row),
{
    assert(row_is_apart(60)) by {
        reveal_strlit("Found");
        reveal_strlit("已找到");
        assert(is_wide_at(CHINESE@[60].1@, 0));
    }
    assert(row_is_apart(61)) by {
        reveal_strlit("connected device(s); transport mode:");
        reveal_strlit("台已连接设备；连接方式：");
        assert(is_wide_at(CHINESE@[61].1@, 0));
    }
    assert(row_is_apart(62)) by {
        reveal_strlit("Could not enumerate devices:");
        reveal_strlit("无法枚举设备：");
        assert(is_wide_at(CHINESE@[62].1@, 0));
    }
    assert(row_is_apart(63)) by {
        reveal_strlit("Selected iPhone has no");
        reveal_strlit("选中的 iPhone 没有");
        assert(is_wide_at(CHINESE@[63].1@, 0));
    }
    assert(row_is_apart(64)) by {
        reveal_strlit("connection. Refresh devices or change transport mode.");
        reveal_strlit("连接。请刷新设备或更改连接方式。");
        assert(is_wide_at(CHINESE@[64].1@, 0));
    }
    assert(row_is_apart(65)) by {
        reveal_strlit("Scanning syslog...");
        reveal_strlit("正在扫描 syslog...");
        assert(is_wide_at(CHINESE@[65].1@, 0));
    }
    assert(row_is_apart(66)) by {
        reveal_strlit("Open Wallet on iPhone and tap your card");
        reveal_strlit("请在 iPhone 上打开钱包并点击目标卡片");
        assert(is_wide_at(CHINESE@[66].1@, 0));
    }
    assert(row_is_apart(67)) by {
        reveal_strlit("Stop");
        reveal_strlit("停止");
        assert(is_wide_at(CHINESE@[67].1@, 0));
    }
    assert(row_is_apart(68)) by {
        reveal_strlit("Scan");
        reveal_strlit("扫描");
        assert(is_wide_at(CHINESE@[68].1@, 0));
    }
    assert(row_is_apart(69)) by {
        reveal_strlit("Card Configuration");
        reveal_strlit("卡片配置");
        assert(is_wide_at(CHINESE@[69].1@, 0));
    }
}

proof fn rows_from_70()
    ensures
        forall|row: int| 70 <= row < 80 ==> #[trigger] row_is_apart(row),
{
    assert(row_is_apart(70)) by {
        reveal_strlit("Target your card and choose replacement artwork");
        reveal_strlit("选择目标卡片和替换图片");
        assert(is_wide_at(CHINESE@[70].1@, 0));
    }
    assert(row_is_apart(71)) by {
        reveal_strlit("Target Card Hash");
        reveal_strlit("目标卡片 Hash");
        assert(is_wide_at(CHINESE@[71].1@, 0));
    }
    assert(row_is_apart(72)) by {
        reveal_strlit("Base64 pass hash...");
        reveal_strlit("Base64 卡片 Hash...");
        assert(is_wide_at(CHINESE@[72].1@, 7));
    }
    assert(row_is_apart(73)) by {
        reveal_strlit("Saved cards");
        reveal_strlit("已保存的卡片");
        assert(is_wide_at(CHINESE@[73].1@, 0));
    }
    assert(row_is_apart(74)) by {
        reveal_strlit("Select...");
        reveal_strlit("请选择...");
        assert(is_wide_at(CHINESE@[74].1@, 0));
    }
    assert(row_is_apart(75)) by {
        reveal_strlit("Card Skin Artwork");
        reveal_strlit("卡片皮肤图片");
        assert(is_wide_at(CHINESE@[75].1@, 0));
    }
    assert(row_is_apart(76)) by {
        reveal_strlit("PNG, JPG, WebP - auto-scaled to 1536x969");
        reveal_strlit("PNG、JPG、WebP，将自动缩放到 1536x969");
        assert(is_wide_at(CHINESE@[76].1@, 3));
    }
    assert(row_is_apart(77)) by {
        reveal_strlit("Drag inside the preview to reposition the crop.");
        reveal_strlit("在预览区域内拖动以调整裁切位置。");
        assert(is_wide_at(CHINESE@[77].1@, 0));
    }
    assert(row_is_apart(78)) by {
        reveal_strlit("Choose Image...");
        reveal_strlit("选择图片...");
        assert(is_wide_at(CHINESE@[78].1@, 0));
    }
    assert(row_is_apart(79)) by {
        reveal_strlit("Export PNG");
        reveal_strlit("导出 PNG");
        assert(is_wide_at(CHINESE@[79].1@, 0));
    }
}

proof fn rows_from_80()
    ensures
        forall|row: int| 80 <= row < 90 ==> #[trigger] row_is_apart(row),
{
    assert(row_is_apart(80)) by {
        reveal_strlit("Write to iPhone");
        reveal_strlit("写入 iPhone");
        assert(is_wide_at(CHINESE@[80].1@, 0));
    }
    assert(row_is_apart(81)) by {
        reveal_strlit("Apply Card Skin");
        reveal_strlit("应用卡片皮肤");
        assert(is_wide_at(CHINESE@[81].1@, 0));
    }
    assert(row_is_apart(82)) by {
        reveal_strlit("Restore Original");
        reveal_strlit("恢复原卡面");
        assert(is_wide_at(CHINESE@[82].1@, 0));
    }
    assert(row_is_apart(83)) by {
        reveal_strlit("connect iPhone");
        reveal_strlit("连接 iPhone");
        assert(is_wide_at(CHINESE@[83].1@, 0));
    }
    assert(row_is_apart(84)) by {
        reveal_strlit("choose available transport");
        reveal_strlit("选择可用的连接方式");
        assert(is_wide_at(CHINESE@[84].1@, 0));
    }
    assert(row_is_apart(85)) by {
        reveal_strlit("enter card hash");
        reveal_strlit("输入卡片 Hash");
        assert(is_wide_at(CHINESE@[85].1@, 0));
    }
    assert(row_is_apart(86)) by {
        reveal_strlit("choose image");
        reveal_strlit("选择图片");
        assert(is_wide_at(CHINESE@[86].1@, 0));
    }
    assert(row_is_apart(87)) by {
        reveal_strlit("select theme");
        reveal_strlit("选择主题");
        assert(is_wide_at(CHINESE@[87].1@, 0));
    }
    assert(row_is_apart(88)) by {
        reveal_strlit("Need: ");
        reveal_strlit("需要：");
        assert(is_wide_at(CHINESE@[88].1@, 0));
    }
    assert(row_is_apart(89)) by {
        reveal_strlit("Wallet Preview");
        reveal_strlit("钱包预览");
        assert(is_wide_at(CHINESE@[89].1@, 0));
    }
}

proof fn rows_from_90()
    ensures
        forall|row: int| 90 <= row < 100 ==> #[trigger] row_is_apart(row),
{
    assert(row_is_apart(90)) by {
        reveal_strlit("1536 x 969 px pass canvas");
        reveal_strlit("1536 x 969 像素卡片画布");
        assert(is_wide_at(CHINESE@[90].1@, 11));
    }
    assert(row_is_apart(91)) by {
        reveal_strlit("No artwork loaded");
        reveal_strlit("尚未加载图片");
        assert(is_wide_at(CHINESE@[91].1@, 0));
    }
    assert(row_is_apart(92)) by {
        reveal_strlit("No image");
        reveal_strlit("没有图片");
        assert(is_wide_at(CHINESE@[92].1@, 0));
    }
    assert(row_is_apart(93)) by {
        reveal_strlit("After applying, force close Apple Wallet and reopen it.");
        reveal_strlit("应用后，请强制关闭 Apple Wallet 并重新打开。");
        assert(is_wide_at(CHINESE@[93].1@, 0));
    }
    assert(row_is_apart(94)) by {
        reveal_strlit("Passcode Theme");
        reveal_strlit("锁屏密码主题");
        assert(is_wide_at(CHINESE@[94].1@, 0));
    }
    assert(row_is_apart(95)) by {
        reveal_strlit("Custom lockscreen keypad from Cowabunga or Nugget");
        reveal_strlit("来自 Cowabunga 或 Nugget 的自定义锁屏键盘");
        assert(is_wide_at(CHINESE@[95].1@, 0));
    }
    assert(row_is_apart(96)) by {
        reveal_strlit("Theme Package");
        reveal_strlit("主题包");
        assert(is_wide_at(CHINESE@[96].1@, 0));
    }
    assert(row_is_apart(97)) by {
        reveal_strlit("Choose a .passthm archive containing dialer artwork");
        reveal_strlit("选择包含拨号键盘图片的 .passthm 压缩包");
        assert(is_wide_at(CHINESE@[97].1@, 0));
    }
    assert(row_is_apart(98)) by {
        reveal_strlit("Choose .passthm...");
        reveal_strlit("选择 .passthm...");
        assert(is_wide_at(CHINESE@[98].1@, 0));
    }
    assert(row_is_apart(99)) by {
        reveal_strlit("assets");
        reveal_strlit("个资源");
        assert(is_wide_at(CHINESE@[99].1@, 0));
    }
}

proof fn rows_from_100()
    ensures
        forall|row: int| 100 <= row < 110 ==> #[trigger] row_is_apart(row),
{
    assert(row_is_apart(100)) by {
        reveal_strlit("Target iOS Cache");
        reveal_strlit("目标 iOS 缓存");
        assert(is_wide_at(CHINESE@[100].1@, 0));
    }
    assert(row_is_apart(101)) by {
        reveal_strlit("Select cache format based on connected iOS version");
        reveal_strlit("根据连接设备的 iOS 版本选择缓存格式");
        assert(is_wide_at(CHINESE@[101].1@, 0));
    }
    assert(row_is_apart(102)) by {
        reveal_strlit("Auto (TelephonyUI-10)");
        reveal_strlit("自动（TelephonyUI-10）");
        assert(is_wide_at(CHINESE@[102].1@, 0));
    }
    assert(row_is_apart(103)) by {
        reveal_strlit("TelephonyUI-10 (iOS 18+)");
        reveal_strlit("TelephonyUI-10（iOS 18+）");
        assert(is_wide_at(CHINESE@[103].1@, 14));
    }
    assert(row_is_apart(104)) by {
        reveal_strlit("TelephonyUI-9 (iOS 16-17)");
        reveal_strlit("TelephonyUI-9（iOS 16-17）");
        assert(is_wide_at(CHINESE@[104].1@, 13));
    }
    assert(row_is_apart(105)) by {
        reveal_strlit("TelephonyUI-8 (Legacy)");
        reveal_strlit("TelephonyUI-8（旧版本）");
        assert(is_wide_at(CHINESE@[105].1@, 13));
    }
    assert(row_is_apart(106)) by {
        reveal_strlit("Keypad Language");
        reveal_strlit("键盘语言");
        assert(is_wide_at(CHINESE@[106].1@, 0));
    }
    assert(row_is_apart(107)) by {
        reveal_strlit("Subtext alphabet layout (English, Russian, Ukrainian, Japanese, or Universal)");
        reveal_strlit("按键副文字母布局（英语、俄语、乌克兰语、日语或通用）");
        assert(is_wide_at(CHINESE@[107].1@, 0));
    }
    assert(row_is_apart(108)) by {
        reveal_strlit("Russian");
        reveal_strlit("俄语");
        assert(is_wide_at(CHINESE@[108].1@, 0));
    }
    assert(row_is_apart(109)) by {
        reveal_strlit("Ukrainian");
        reveal_strlit("乌克兰语");
        assert(is_wide_at(CHINESE@[109].1@, 0));
    }
}

proof fn rows_from_110()
    ensures
        forall|row: int| 110 <= row < 120 ==> #[trigger] row_is_apart(row),
{
    assert(row_is_apart(110)) by {
        reveal_strlit("Japanese");
        reveal_strlit("日语");
        assert(is_wide_at(CHINESE@[110].1@, 0));
    }
    assert(row_is_apart(111)) by {
        reveal_strlit("All Languages (Universal)");
        reveal_strlit("全部语言（通用）");
        assert(is_wide_at(CHINESE@[111].1@, 0));
    }
    assert(row_is_apart(112)) by {
        reveal_strlit("Bold Text (iOS Accessibility)");
        reveal_strlit("粗体文字（iOS 辅助功能）");
        assert(is_wide_at(CHINESE@[112].1@, 0));
    }
    assert(row_is_apart(113)) by {
        reveal_strlit("Generates *-bold.png for devices with Bold Text turned ON in iPhone Settings -> Display");
        reveal_strlit("为 iPhone 设置 -> 显示与亮度中启用粗体文字的设备生成 *-bold.png");
        assert(is_wide_at(CHINESE@[113].1@, 0));
    }
    assert(row_is_apart(114)) by {
        reveal_strlit("Apply Passcode Theme");
        reveal_strlit("应用锁屏密码主题");
        assert(is_wide_at(CHINESE@[114].1@, 0));
    }
    assert(row_is_apart(115)) by {
        reveal_strlit("Keypad Preview");
        reveal_strlit("键盘预览");
        assert(is_wide_at(CHINESE@[115].1@, 0));
    }
    assert(row_is_apart(116)) by {
        reveal_strlit("Dialer button artwork");
        reveal_strlit("拨号按钮图片");
        assert(is_wide_at(CHINESE@[116].1@, 0));
    }
    assert(row_is_apart(117)) by {
        reveal_strlit("No theme loaded");
        reveal_strlit("尚未加载主题");
        assert(is_wide_at(CHINESE@[117].1@, 0));
    }
    assert(row_is_apart(118)) by {
        reveal_strlit("3x4 Keypad");
        reveal_strlit("3x4 键盘");
        assert(is_wide_at(CHINESE@[118].1@, 4));
    }
    assert(row_is_apart(119)) by {
        reveal_strlit("No theme");
        reveal_strlit("没有主题");
        assert(is_wide_at(CHINESE@[119].1@, 0));
    }
}

proof fn rows_from_120()
    ensures
        forall|row: int| 120 <= row < 130 ==> #[trigger] row_is_apart(row),
{
    assert(row_is_apart(120)) by {
        reveal_strlit("After applying, lock your iPhone to see the new keypad.");
        reveal_strlit("应用后，请锁定 iPhone 查看新的键盘样式。");
        assert(is_wide_at(CHINESE@[120].1@, 0));
    }
    assert(row_is_apart(121)) by {
        reveal_strlit("Setup & Card Hash Guide");
        reveal_strlit("设置与卡片 Hash 指南");
        assert(is_wide_at(CHINESE@[121].1@, 0));
    }
    assert(row_is_apart(122)) by {
        reveal_strlit("Everything you need to connect and capture your card");
        reveal_strlit("连接设备并捕获卡片所需的全部信息");
        assert(is_wide_at(CHINESE@[122].1@, 0));
    }
    assert(row_is_apart(123)) by {
        reveal_strlit("Prerequisites");
        reveal_strlit("使用前准备");
        assert(is_wide_at(CHINESE@[123].1@, 0));
    }
    assert(row_is_apart(124)) by {
        reveal_strlit("- 64-bit iTunes or Apple Mobile Device Support installed");
        reveal_strlit("- 已安装 64 位 iTunes 或 Apple Mobile Device Support");
        assert(is_wide_at(CHINESE@[124].1@, 2));
    }
    assert(row_is_apart(125)) by {
        reveal_strlit("- First-time setup: connect by USB and tap \"Trust this Computer\"");
        reveal_strlit("- 首次使用：通过 USB 连接并点击“信任此电脑”");
        assert(is_wide_at(CHINESE@[125].1@, 2));
    }
    assert(row_is_apart(126)) by {
        reveal_strlit("- WiFi: enable WiFi sync, then use the same local network");
        reveal_strlit("- WiFi：启用 WiFi 同步，并确保双方处于同一局域网");
        assert(is_wide_at(CHINESE@[126].1@, 6));
    }
    assert(row_is_apart(127)) by {
        reveal_strlit("- Select Auto, USB only, or WiFi only in the top bar");
        reveal_strlit("- 在顶部栏选择自动、仅 USB 或仅 WiFi");
        assert(is_wide_at(CHINESE@[127].1@, 2));
    }
    assert(row_is_apart(128)) by {
        reveal_strlit("Finding Your Card Hash");
        reveal_strlit("查找卡片 Hash");
        assert(is_wide_at(CHINESE@[128].1@, 0));
    }
    assert(row_is_apart(129)) by {
        reveal_strlit("1. Click \"Scan\" in the Wallet tab");
        reveal_strlit("1. 在钱包页点击“扫描”");
        assert(is_wide_at(CHINESE@[129].1@, 3));
    }
}

proof fn rows_from_130()
    ensures
        forall|row: int| 130 <= row < 140 ==> #[trigger] row_is_apart(row),
{
    assert(row_is_apart(130)) by {
        reveal_strlit("2. Open Apple Wallet on your iPhone");
        reveal_strlit("2. 在 iPhone 上打开 Apple Wallet");
        assert(is_wide_at(CHINESE@[130].1@, 3));
    }
    assert(row_is_apart(131)) by {
        reveal_strlit("3. Tap the card you want to customize");
        reveal_strlit("3. 点击要自定义的卡片");
        assert(is_wide_at(CHINESE@[131].1@, 3));
    }
    assert(row_is_apart(132)) by {
        reveal_strlit("4. AirCard captures the pass hash automatically");
        reveal_strlit("4. AirCard 会自动捕获卡片 Hash");
        assert(is_wide_at(CHINESE@[132].1@, 11));
    }
    assert(row_is_apart(133)) by {
        reveal_strlit("5. Click \"Stop\" once detected");
        reveal_strlit("5. 检测到后点击“停止”");
        assert(is_wide_at(CHINESE@[133].1@, 3));
    }
    assert(row_is_apart(134)) by {
        reveal_strlit("Activation & Theme Guide");
        reveal_strlit("应用与主题指南");
        assert(is_wide_at(CHINESE@[134].1@, 0));
    }
    assert(row_is_apart(135)) by {
        reveal_strlit("Applying skins and dialer keypad packages");
        reveal_strlit("应用卡片皮肤和拨号键盘主题");
        assert(is_wide_at(CHINESE@[135].1@, 0));
    }
    assert(row_is_apart(136)) by {
        reveal_strlit("Activating Apple Wallet Skin");
        reveal_strlit("应用 Apple Wallet 皮肤");
        assert(is_wide_at(CHINESE@[136].1@, 0));
    }
    assert(row_is_apart(137)) by {
        reveal_strlit("1. Click \"Apply Card Skin\" and wait for completion");
        reveal_strlit("1. 点击“应用卡片皮肤”并等待完成");
        assert(is_wide_at(CHINESE@[137].1@, 3));
    }
    assert(row_is_apart(138)) by {
        reveal_strlit("2. Open App Switcher on iPhone (swipe up from bottom)");
        reveal_strlit("2. 在 iPhone 上打开 App 切换器（从底部向上滑动）");
        assert(is_wide_at(CHINESE@[138].1@, 3));
    }
    assert(row_is_apart(139)) by {
        reveal_strlit("3. Force close Apple Wallet by swiping up on it");
        reveal_strlit("3. 向上滑动并强制关闭 Apple Wallet");
        assert(is_wide_at(CHINESE@[139].1@, 3));
    }
}

proof fn rows_from_140()
    ensures
        forall|row: int| 140 <= row < 146 ==> #[trigger] row_is_apart(row),
{
    assert(row_is_apart(140)) by {
        reveal_strlit("4. Reopen Wallet - your new skin appears!");
        reveal_strlit("4. 重新打开钱包，即可看到新的皮肤！");
        assert(is_wide_at(CHINESE@[140].1@, 3));
    }
    assert(row_is_apart(141)) by {
        reveal_strlit("Passcode Themes (.passthm)");
        reveal_strlit("锁屏密码主题（.passthm）");
        assert(is_wide_at(CHINESE@[141].1@, 0));
    }
    assert(row_is_apart(142)) by {
        reveal_strlit("- Compatible with Cowabunga & Nugget theme packages");
        reveal_strlit("- 兼容 Cowabunga 和 Nugget 主题包");
        assert(is_wide_at(CHINESE@[142].1@, 2));
    }
    assert(row_is_apart(143)) by {
        reveal_strlit("- iOS 18+: Select \"Auto (TelephonyUI-10)\"");
        reveal_strlit("- iOS 18+：选择“自动（TelephonyUI-10）”");
        assert(is_wide_at(CHINESE@[143].1@, 9));
    }
    assert(row_is_apart(144)) by {
        reveal_strlit("- iOS 16-17: Select \"TelephonyUI-9\"");
        reveal_strlit("- iOS 16-17：选择“TelephonyUI-9”");
        assert(is_wide_at(CHINESE@[144].1@, 11));
    }
    assert(row_is_apart(145)) by {
        reveal_strlit("- Lock screen to verify your updated keypad artwork");
        reveal_strlit("- 锁定屏幕以查看更新后的键盘图片");
        assert(is_wide_at(CHINESE@[145].1@, 2));
    }
}

/// Every row leads from a text in ASCII to one that is not.
proof fn rows_are_apart(row: int)
    requires
        0 <= row < CHINESE@.len(),
    ensures
        row_is_apart(row),
{
    rows_from_0();
    rows_from_10();
    rows_from_20();
    rows_from_30();
    rows_from_40();
    rows_from_50();
    rows_from_60();
    rows_from_70();
    rows_from_80();
    rows_from_90();
    rows_from_100();
    rows_from_110();
    rows_from_120();
    rows_from_130();
    rows_from_140();
    assert(row_is_apart(row));
}

/// What is found in the table is a row of it.
proof fn found_in_table(source: Seq<char>, from: int)
    requires
        0 <= from <= CHINESE@.len(),
    ensures
        from <= row_of(source, from) <= CHINESE@.len(),
        row_of(source, from) < CHINESE@.len() ==> CHINESE@[row_of(source, from)].0@ == source,
    decreases CHINESE@.len() - from,
{
    if from < CHINESE@.len() {
        found_in_table(source, from + 1);
    }
}

/// Translated text is translated no further: what a language shows for a text, it
/// shows as it is.
pub proof fn shown_text_stays(language: Language, source: Seq<char>)
    ensures
        language.shows(language.shows(source)) == language.shows(source),
        Language::English.shows(source) == source,
{
    let shown = in_chinese(source);
    found_in_table(source, 0);
    found_in_table(shown, 0);
    let row = row_of(source, 0);
    let next = row_of(shown, 0);
    if row < CHINESE@.len() && next < CHINESE@.len() {
        rows_are_apart(row);
        rows_are_apart(next);
    }
}

} // verus!
